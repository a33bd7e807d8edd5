use linkmap::{parse_linkmap, LinkMap, ObjectFile, SectionObject, SymbolObject};

fn lines(text: &[&str]) -> Vec<String> {
    text.iter().map(|line| line.to_string()).collect()
}

#[test]
fn it_works() {
    let result = 2 + 2;
    assert_eq!(result, 4);
}

#[test]
fn path_and_arch_only() {
    let map: LinkMap = parse_linkmap(&lines(&["# Path: /tmp/a.out", "# Arch: arm64"]), false);
    assert_eq!(map.path, "/tmp/a.out");
    assert_eq!(map.arch, "arm64");
    assert!(map.object_files.is_empty());
    assert!(map.sections.is_empty());
    assert!(map.symbols.is_empty());
    assert!(map.dead_stripped_symbols.is_empty());
}

#[test]
fn empty_input_gives_empty_map() {
    let map = parse_linkmap(&[], true);
    assert_eq!(map, LinkMap::new());
    assert_eq!(map.path, "");
    assert_eq!(map.arch, "");
}

#[test]
fn object_files_block() {
    let map = parse_linkmap(&lines(&["# Object files:", "[  0] a.o", "[  1] b.o"]), false);
    assert_eq!(
        map.object_files,
        vec![
            ObjectFile { index: 0, path: "a.o".to_string() },
            ObjectFile { index: 1, path: "b.o".to_string() },
        ]
    );
}

#[test]
fn symbols_block_skips_column_titles() {
    let map = parse_linkmap(
        &lines(&["# Symbols:", "Address\tSize\tFile  Name", "0x1000\t0x10\t[  0] _main"]),
        false,
    );
    assert_eq!(
        map.symbols,
        vec![SymbolObject { address: 0x1000, size: 0x10, file_index: 0, name: "_main".to_string() }]
    );
    assert!(map.dead_stripped_symbols.is_empty());
}

#[test]
fn section_line_with_three_fields_is_dropped() {
    let map = parse_linkmap(
        &lines(&[
            "# Sections:",
            "# Address\tSize    \tSegment\tSection",
            "0x100003F00\t0x00000040\t__TEXT",
            "0x100004000\t0x00000008\t__DATA\t__data",
        ]),
        false,
    );
    assert_eq!(
        map.sections,
        vec![SectionObject {
            address: 0x100004000,
            size: 8,
            segment: "__DATA".to_string(),
            section: "__data".to_string(),
        }]
    );
}

#[test]
fn whole_link_map() {
    let text = [
        "# Path: /Users/dev/Build/Products/Debug/demo",
        "# Arch: x86_64",
        "# Object files:",
        "[  0] linker synthesized",
        "[  1] /Users/dev/Build/main.o",
        "[  2] /usr/lib/libSystem.tbd",
        "# Sections:",
        "# Address\tSize    \tSegment\tSection",
        "0x100003F50\t0x00000066\t__TEXT\t__text",
        "0x100003FB6\t0x00000006\t__TEXT\t__stubs",
        "# Symbols:",
        "# Address\tSize    \tFile  Name",
        "0x100003F50\t0x00000030\t[  1] _main",
        "0x100003F80\t0x00000036\t[  1] _helper",
        "# Dead Stripped Symbols:",
        "#        \tSize    \tFile  Name",
        "<<dead>> \t0x00000012\t[  1] _unused",
    ];
    let map = parse_linkmap(&lines(&text), false);
    assert_eq!(map.path, "/Users/dev/Build/Products/Debug/demo");
    assert_eq!(map.arch, "x86_64");
    assert_eq!(
        map.object_files,
        vec![
            ObjectFile { index: 0, path: "linker synthesized".to_string() },
            ObjectFile { index: 1, path: "/Users/dev/Build/main.o".to_string() },
            ObjectFile { index: 2, path: "/usr/lib/libSystem.tbd".to_string() },
        ]
    );
    assert_eq!(
        map.sections,
        vec![
            SectionObject {
                address: 0x100003F50,
                size: 0x66,
                segment: "__TEXT".to_string(),
                section: "__text".to_string(),
            },
            SectionObject {
                address: 0x100003FB6,
                size: 6,
                segment: "__TEXT".to_string(),
                section: "__stubs".to_string(),
            },
        ]
    );
    assert_eq!(
        map.symbols,
        vec![
            SymbolObject {
                address: 0x100003F50,
                size: 0x30,
                file_index: 1,
                name: "_main".to_string(),
            },
            SymbolObject {
                address: 0x100003F80,
                size: 0x36,
                file_index: 1,
                name: "_helper".to_string(),
            },
        ]
    );
    assert_eq!(
        map.dead_stripped_symbols,
        vec![SymbolObject { address: 0, size: 0x12, file_index: 1, name: "_unused".to_string() }]
    );
}

#[test]
fn blocks_may_be_empty() {
    let text = [
        "# Path: a.out",
        "# Arch: arm64",
        "# Object files:",
        "# Sections:",
        "# Address\tSize    \tSegment\tSection",
        "# Symbols:",
        "# Address\tSize    \tFile  Name",
        "# Dead Stripped Symbols:",
        "#        \tSize    \tFile  Name",
    ];
    let map = parse_linkmap(&lines(&text), false);
    assert_eq!(map.path, "a.out");
    assert_eq!(map.arch, "arm64");
    assert!(map.object_files.is_empty());
    assert!(map.sections.is_empty());
    assert!(map.symbols.is_empty());
    assert!(map.dead_stripped_symbols.is_empty());
}

#[test]
fn repeated_path_and_arch_keep_the_last() {
    let map = parse_linkmap(
        &lines(&["# Path: first", "# Arch: i386", "# Path: second", "# Arch: arm64e"]),
        false,
    );
    assert_eq!(map.path, "second");
    assert_eq!(map.arch, "arm64e");
}

#[test]
fn header_values_are_kept_verbatim() {
    let map = parse_linkmap(&lines(&["# Path:   spaced out  ", "# Arch: "]), false);
    assert_eq!(map.path, "  spaced out  ");
    assert_eq!(map.arch, "");
}

#[test]
fn short_lines_do_not_change_the_result() {
    let with_noise = [
        "# Sections:",
        "# Address\tSize    \tSegment\tSection",
        "",
        "0x1000\t0x10\t__TEXT\t__text",
        "0x2000\t0x20\t__DATA",
        "garbage",
        "0x3000\t0x30\t__DATA\t__bss",
        "# Symbols:",
        "# Address\tSize    \tFile  Name",
        "0x1000\t0x10",
        "0x1000\t0x08\t[  1] _a",
        "lonely",
        "0x1008\t0x08\t[  1] _b",
        "# Dead Stripped Symbols:",
        "#        \tSize    \tFile  Name",
        "<<dead>>",
        "<<dead>>\t0x04\t[  2] _c",
    ];
    let clean = [
        "# Sections:",
        "# Address\tSize    \tSegment\tSection",
        "0x1000\t0x10\t__TEXT\t__text",
        "0x3000\t0x30\t__DATA\t__bss",
        "# Symbols:",
        "# Address\tSize    \tFile  Name",
        "0x1000\t0x08\t[  1] _a",
        "0x1008\t0x08\t[  1] _b",
        "# Dead Stripped Symbols:",
        "#        \tSize    \tFile  Name",
        "<<dead>>\t0x04\t[  2] _c",
    ];
    let noisy = parse_linkmap(&lines(&with_noise), false);
    let tidy = parse_linkmap(&lines(&clean), false);
    assert_eq!(noisy, tidy);
    assert_eq!(noisy.sections.len(), 2);
    assert_eq!(noisy.symbols.len(), 2);
    assert_eq!(noisy.dead_stripped_symbols.len(), 1);
}

#[test]
fn dead_symbols_always_have_address_zero() {
    let text = [
        "# Dead Stripped Symbols:",
        "#        \tSize    \tFile  Name",
        "<<dead>>\t0x10\t[  1] _a",
        "0xFFFF\t0x20\t[  2] _b",
        "\t0x30\t[  3] _c",
        "not hex at all\t40\t[  4] _d",
    ];
    let map = parse_linkmap(&lines(&text), false);
    assert_eq!(map.dead_stripped_symbols.len(), 4);
    for symbol in &map.dead_stripped_symbols {
        assert_eq!(symbol.address, 0);
    }
    assert_eq!(map.dead_stripped_symbols[1].size, 0x20);
    assert_eq!(map.dead_stripped_symbols[3].size, 0x40);
    assert_eq!(map.dead_stripped_symbols[3].file_index, 4);
    assert!(map.symbols.is_empty());
}

#[test]
fn records_keep_input_order() {
    let text = ["# Object files:", "[  7] z.o", "[  3] a.o", "[  7] z.o", "[  0] m.o"];
    let map = parse_linkmap(&lines(&text), false);
    let indices: Vec<u32> = map.object_files.iter().map(|file| file.index).collect();
    assert_eq!(indices, vec![7, 3, 7, 0]);
}
