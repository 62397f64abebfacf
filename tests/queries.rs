use fi::disasm::{Disassembler, Inst, Operand};
use fi::error::ErrorKind;
use fi::explorer::{build_dyn_rela, build_symlist, search_address};
use fi::model::{
    Architecture, BinaryFormat, DynReloc, Explorer, MapEntry, RelocationTarget, Section,
    SectionKind, Symbol, SymbolKind, SymbolSection,
};
use fi::pattern::{BytesPattern, Pattern};
use fi::resolve::query_symbol_by_addr;
use fi::search::{
    callsite_candidates, callsite_target, candidate_hit, is_caller, order_callers, render_hits,
    search_mode, search_section_data, search_symbols, SearchCommand, SearchMode,
};
use fi::show::{
    dwarf_top, locate_symbol, section_range, show_data, show_text, symbol_range, text_line,
    SourceLine, SourceMap,
};

fn sym(index: usize, name: &str, address: u64, size: u64, kind: SymbolKind, section: usize) -> Symbol {
    Symbol {
        index,
        name: Some(name.to_string()),
        address,
        size,
        kind,
        section: SymbolSection::Section(section),
        is_global: true,
    }
}

fn sec(index: usize, name: &str, address: u64, size: u64, kind: SectionKind) -> Section {
    Section { index, name: Some(name.to_string()), address, size, align: 16, kind }
}

fn map_of(symbols: &[Symbol]) -> Vec<MapEntry> {
    let mut m: Vec<MapEntry> = symbols
        .iter()
        .filter_map(|s| s.name.clone().map(|name| MapEntry { address: s.address, name }))
        .collect();
    m.sort_by_key(|e| e.address);
    m.dedup_by_key(|e| e.address);
    m
}

fn elf_with(symbols: Vec<Symbol>) -> Explorer {
    let symbol_map = map_of(&symbols);
    Explorer {
        format: BinaryFormat::Elf,
        arch: Architecture::X86_64,
        sections: vec![
            sec(1, ".text", 0x1000, 0x200, SectionKind::Text),
            sec(2, ".got", 0x1120, 0x20, SectionKind::Data),
            sec(3, ".data", 0x3000, 0x100, SectionKind::Data),
        ],
        symbols,
        dyn_relocs: Vec::new(),
        symbol_map,
    }
}

fn search_cmd(keyword: &str) -> SearchCommand {
    SearchCommand {
        keyword: keyword.to_string(),
        demangle: false,
        data: false,
        callsite: false,
        filter_section: None,
        size: false,
        sort_size: false,
        sort_name: false,
        only_duplicate: false,
    }
}

fn text(b: Vec<u8>) -> String {
    String::from_utf8(b).unwrap()
}

#[test]
fn search_prints_symbol_with_size_and_sum() {
    let view = elf_with(vec![
        sym(1, "foo", 0x1000, 7, SymbolKind::Text, 1),
        sym(2, "foobar", 0x1010, 3, SymbolKind::Text, 1),
    ]);
    let sl = build_symlist(&view);
    let mut cmd = search_cmd("^foo$");
    cmd.size = true;
    let (out, skipped) = search_symbols(&view, &sl, &cmd).unwrap();
    assert_eq!(text(out), "0x0000000000001000          7 T foo\nsum: 7\n");
    assert!(skipped.is_empty());
}

#[test]
fn search_with_no_match_prints_zero_sum() {
    let view = elf_with(vec![sym(1, "foo", 0x1000, 7, SymbolKind::Text, 1)]);
    let sl = build_symlist(&view);
    let mut cmd = search_cmd("^nothing$");
    cmd.size = true;
    let (out, _) = search_symbols(&view, &sl, &cmd).unwrap();
    assert_eq!(text(out), "sum: 0\n");
}

#[test]
fn search_sorts_by_size_and_name() {
    let view = elf_with(vec![
        sym(1, "b", 0x1000, 9, SymbolKind::Text, 1),
        sym(2, "a", 0x1010, 2, SymbolKind::Text, 1),
        sym(3, "c", 0x1020, 5, SymbolKind::Text, 1),
    ]);
    let sl = build_symlist(&view);
    let mut cmd = search_cmd("");
    cmd.sort_size = true;
    let (out, _) = search_symbols(&view, &sl, &cmd).unwrap();
    assert_eq!(
        text(out),
        "0x0000000000001010 T a\n0x0000000000001020 T c\n0x0000000000001000 T b\n"
    );
    let mut cmd = search_cmd("");
    cmd.sort_name = true;
    let (out, _) = search_symbols(&view, &sl, &cmd).unwrap();
    assert_eq!(
        text(out),
        "0x0000000000001010 T a\n0x0000000000001000 T b\n0x0000000000001020 T c\n"
    );
}

#[test]
fn search_only_duplicate_keeps_later_base_names() {
    let view = elf_with(vec![
        sym(1, "f.cold", 0x1000, 1, SymbolKind::Text, 1),
        sym(2, "f", 0x1010, 1, SymbolKind::Text, 1),
        sym(3, "g", 0x1020, 1, SymbolKind::Text, 1),
        sym(4, "f.part.0", 0x1030, 1, SymbolKind::Text, 1),
    ]);
    let sl = build_symlist(&view);
    let mut cmd = search_cmd("");
    cmd.only_duplicate = true;
    let (out, _) = search_symbols(&view, &sl, &cmd).unwrap();
    assert_eq!(text(out), "0x0000000000001010 T f\n0x0000000000001030 T f.part.0\n");
}

#[test]
fn search_filters_sections_and_skips_unnamed() {
    let mut symbols = vec![
        sym(1, "code", 0x1000, 1, SymbolKind::Text, 1),
        sym(2, "value", 0x3000, 4, SymbolKind::Data, 3),
    ];
    symbols.push(Symbol {
        index: 3,
        name: None,
        address: 0x3010,
        size: 0,
        kind: SymbolKind::Data,
        section: SymbolSection::Section(3),
        is_global: false,
    });
    let view = elf_with(symbols);
    let sl = build_symlist(&view);
    let mut cmd = search_cmd("");
    cmd.filter_section = Some("^\\.data$".to_string());
    let (out, skipped) = search_symbols(&view, &sl, &cmd).unwrap();
    assert_eq!(text(out), "0x0000000000003000 D value\n");
    assert_eq!(skipped, vec![2]);
}

#[test]
fn search_rejects_bad_pattern() {
    let view = elf_with(vec![sym(1, "foo", 0x1000, 7, SymbolKind::Text, 1)]);
    let sl = build_symlist(&view);
    assert_eq!(search_symbols(&view, &sl, &search_cmd("(")).err(), Some(ErrorKind::Decode));
}

#[test]
fn search_demangles_names() {
    let view = elf_with(vec![sym(1, "_ZN3foo3barE", 0x1000, 7, SymbolKind::Text, 1)]);
    let sl = build_symlist(&view);
    let mut cmd = search_cmd("foo::bar");
    cmd.demangle = true;
    let (out, _) = search_symbols(&view, &sl, &cmd).unwrap();
    assert_eq!(text(out), "0x0000000000001000 T foo::bar\n");
}

#[test]
fn callsite_and_data_exclude_each_other() {
    assert_eq!(search_mode(true, true), Err(ErrorKind::MutuallyExclusive));
    assert_eq!(search_mode(true, false), Ok(SearchMode::ByCall));
    assert_eq!(search_mode(false, true), Ok(SearchMode::ByData));
    assert_eq!(search_mode(false, false), Ok(SearchMode::BySymbol));
}

#[test]
fn data_search_prints_matches() {
    let view = elf_with(vec![]);
    let re = BytesPattern::new("ab+").unwrap();
    let out = search_section_data(&view, 2, b"xxabbbyab", &re, &None);
    assert_eq!(
        text(out),
        "0x0000000000003002\t.data\tabbb\n0x0000000000003007\t.data\tab\n"
    );
    let out = search_section_data(&view, 0, b"ab", &re, &None);
    assert!(out.is_empty());
    let only_text = Some(Pattern::new("text").unwrap());
    assert!(search_section_data(&view, 2, b"ab", &re, &only_text).is_empty());
}

#[test]
fn data_search_shows_invalid_utf8_replaced() {
    let view = elf_with(vec![]);
    let re = BytesPattern::new("(?-u)a.").unwrap();
    let out = search_section_data(&view, 2, &[b'a', 0xff], &re, &None);
    assert_eq!(text(out), "0x0000000000003000\t.data\ta\u{fffd}\n");
}

#[test]
fn macho_size_runs_to_next_symbol() {
    let view = Explorer {
        format: BinaryFormat::MachO,
        arch: Architecture::Aarch64,
        sections: vec![sec(1, "__text", 0x100, 0x100, SectionKind::Text)],
        symbols: vec![
            sym(0, "a", 0x100, 0, SymbolKind::Text, 1),
            sym(1, "b", 0x140, 0, SymbolKind::Text, 1),
        ],
        dyn_relocs: Vec::new(),
        symbol_map: Vec::new(),
    };
    let sl = build_symlist(&view);
    assert_eq!(view.symbol_size(&sl, 0), Ok(0x40));
    assert_eq!(view.symbol_size(&sl, 1), Ok(0xc0));
    assert_eq!(view.symbol_size(&[], 0), Err(ErrorKind::NotFound));
}

#[test]
fn symbol_kinds_follow_sections() {
    let mut view = elf_with(vec![
        sym(1, "code", 0x1000, 1, SymbolKind::Text, 1),
        sym(2, "value", 0x3000, 4, SymbolKind::Data, 3),
    ]);
    view.symbols.push(Symbol {
        index: 3,
        name: Some("ext".to_string()),
        address: 0,
        size: 0,
        kind: SymbolKind::Unknown,
        section: SymbolSection::Undefined,
        is_global: true,
    });
    view.symbols[1].is_global = false;
    assert_eq!(view.symbol_kind(0), 'T');
    assert_eq!(view.symbol_kind(1), 'd');
    assert_eq!(view.symbol_kind(2), 'U');
}

#[test]
fn symlist_finds_every_symbol() {
    let view = elf_with(vec![
        sym(1, "c", 0x1030, 1, SymbolKind::Text, 1),
        sym(2, "a", 0x1000, 1, SymbolKind::Text, 1),
        sym(3, "a2", 0x1000, 1, SymbolKind::Text, 1),
        sym(4, "b", 0x1010, 1, SymbolKind::Text, 1),
    ]);
    let sl = build_symlist(&view);
    assert_eq!(sl, vec![1, 2, 3, 0]);
    for (pos, s) in view.symbols.iter().enumerate() {
        let k = search_address(&view, &sl, s.address).unwrap();
        assert_eq!(view.symbols[sl[k]].address, view.symbols[pos].address);
    }
}

fn got_view() -> Explorer {
    let mut view = elf_with(vec![
        sym(1, "caller", 0x1100, 0x10, SymbolKind::Text, 1),
        sym(2, "bar", 0x3000, 0x10, SymbolKind::Text, 3),
    ]);
    view.dyn_relocs = vec![
        DynReloc { address: 0x1130, target: RelocationTarget::Absolute, addend: 0x1100 },
        DynReloc { address: 0x112a, target: RelocationTarget::Symbol(2), addend: 0 },
    ];
    view
}

fn call_inst(address: u64, disp: i64) -> Inst {
    Inst {
        arch: Disassembler::X86_64,
        address,
        bytes: vec![0xff, 0x15, 0x2a, 0x00, 0x00, 0x00],
        text: "call qword ptr [rip + 0x2a]".to_string(),
        branch: true,
        operand: Operand::RipRelative(disp),
    }
}

#[test]
fn resolver_follows_got_slots() {
    let view = got_view();
    let rel = build_dyn_rela(&view);
    assert_eq!(rel[0].address, 0x112a);
    assert_eq!(query_symbol_by_addr(&view, &rel, 0x3000), Some(("bar".to_string(), 0x3000)));
    assert_eq!(query_symbol_by_addr(&view, &rel, 0x112a), Some(("bar".to_string(), 0x3000)));
    assert_eq!(query_symbol_by_addr(&view, &rel, 0x1128), Some(("bar".to_string(), 0x3000)));
    assert_eq!(query_symbol_by_addr(&view, &rel, 0x1130), Some(("caller".to_string(), 0x1100)));
    assert_eq!(query_symbol_by_addr(&view, &rel, 0x1200), None);
}

#[test]
fn show_annotates_calls_through_the_got() {
    let view = got_view();
    let rel = build_dyn_rela(&view);
    let insts = vec![call_inst(0x1100, 0x2a)];
    let src = SourceMap { files: Vec::new(), texts: Vec::new(), lines: Vec::new() };
    let out = show_text(&view, &rel, Disassembler::X86_64, &insts, &src, None, None, false, false, false);
    let out = text(out);
    assert!(out.ends_with("# bar @ 0x0000000000003000\n"), "{}", out);
    assert!(out.starts_with("0x0000000000001100  ff 15 2a 00 00 00         call"));
}

#[test]
fn show_interleaves_source_lines() {
    let view = got_view();
    let rel = build_dyn_rela(&view);
    let mut plain = call_inst(0x1100, 0);
    plain.branch = false;
    let insts = vec![plain];
    let src = SourceMap {
        files: vec!["/src/main.c".to_string()],
        texts: vec![Some(b"int x;\n  call();\n".to_vec())],
        lines: vec![SourceLine { start: 0x1100, end: 0x1106, file: Some(0), line: Some(2), column: Some(3) }],
    };
    let out = text(show_text(&view, &rel, Disassembler::X86_64, &insts, &src, Some(b".text"), Some(b"caller"), false, false, false));
    assert_eq!(
        out,
        "section: .text\nsymbol: caller\nfile: /src/main.c:2,3\n  call();\n0x0000000000001100  ff 15 2a 00 00 00         call qword ptr [rip + 0x2a]\n"
    );
    let out = text(show_text(&view, &rel, Disassembler::X86_64, &insts, &src, None, None, false, false, true));
    assert!(out.starts_with("file: \x1b]8;;/src/main.c\x1b\\main.c\x1b]8;;\x1b\\:2,3\n"), "{}", out);
}

#[test]
fn callsite_finds_callers_through_the_got() {
    let mut view = got_view();
    view.symbols[1].section = SymbolSection::Section(1);
    view.symbols[1].address = 0x1180;
    view.symbols[0].size = 0x10;
    view.symbol_map = map_of(&view.symbols);
    view.dyn_relocs = vec![DynReloc { address: 0x112a, target: RelocationTarget::Symbol(2), addend: 0 }];
    let sl = build_symlist(&view);
    let rel = build_dyn_rela(&view);
    let target = callsite_target(&view, &sl, 0x1180).ok().unwrap();
    assert_eq!(target.pos, 1);
    let cands = callsite_candidates(&view, &sl, &target, 0x200).ok().unwrap();
    assert_eq!(cands.len(), 2);
    assert_eq!((cands[0].start, cands[0].end), (0x100, 0x110));
    let insts = vec![call_inst(0x1100, 0x2a)];
    assert_eq!(is_caller(&view, &rel, Disassembler::X86_64, &insts, 0x1180), Ok(true));
    assert_eq!(is_caller(&view, &rel, Disassembler::X86_64, &insts, 0x1000), Ok(false));
    assert_eq!(is_caller(&view, &rel, Disassembler::Aarch64, &insts, 0x1180), Err(ErrorKind::UnsupportedArch));
    let hits = vec![candidate_hit(&view, &cands[0], false)];
    let order = order_callers(&view, &hits, false, false);
    let out = render_hits(&view, &hits, &order, false, true, false);
    assert_eq!(text(out), "0x0000000000001100         16 T caller\n");
    assert!(callsite_target(&view, &sl, 0x1234).is_err());
}

#[test]
fn operand_targets() {
    let d = Disassembler::new(Architecture::X86_64).unwrap();
    assert_eq!(d.operand2addr(&call_inst(0x1100, 0x2a)), Ok(Some(0x112a)));
    assert_eq!(d.operand2addr(&call_inst(0x10, -0x20)), Ok(None));
    let mut imm = call_inst(0x1100, 0);
    imm.operand = Operand::Imm(0x4000);
    assert_eq!(d.operand2addr(&imm), Ok(Some(0x4000)));
    imm.branch = false;
    assert_eq!(d.operand2addr(&imm), Ok(None));
    assert_eq!(Disassembler::new(Architecture::Other), Err(ErrorKind::UnsupportedArch));
    assert_eq!(Disassembler::new(Architecture::Wasm64), Ok(Disassembler::Wasm));
    assert_eq!(Disassembler::Wasm.operand2addr(&imm), Err(ErrorKind::UnsupportedArch));
}

#[test]
fn show_locates_symbols_and_ranges() {
    let view = elf_with(vec![
        sym(1, "foo", 0x1000, 7, SymbolKind::Text, 1),
        sym(2, "value", 0x3000, 4, SymbolKind::Data, 3),
    ]);
    let sl = build_symlist(&view);
    assert_eq!(locate_symbol(&view, &sl, 0x1000), Ok((0, 0)));
    assert_eq!(locate_symbol(&view, &sl, 0x1003), Ok((0, 0)));
    assert_eq!(locate_symbol(&view, &sl, 0x1007), Err(ErrorKind::NotFound));
    assert_eq!(locate_symbol(&view, &sl, 0x10), Err(ErrorKind::NotFound));
    assert_eq!(symbol_range(&view, &sl, 0, 0x200), Ok((0, 0, 7)));
    assert_eq!(symbol_range(&view, &sl, 1, 2), Err(ErrorKind::NotFound));
}

#[test]
fn show_section_window_clamps_and_aligns() {
    let view = elf_with(vec![]);
    assert_eq!(section_range(&view, 0x3005, Some(4), None, 0x100), Ok((2, 0x3004, 4, 0x100)));
    assert_eq!(section_range(&view, 0x30ff, Some(1), None, 0x100), Ok((2, 0x30ff, 0xff, 0x100)));
    assert_eq!(section_range(&view, 0x30ff, None, None, 0x100), Ok((2, 0x30f0, 0xf0, 0x100)));
    assert_eq!(section_range(&view, 0x3000, None, Some(8), 0x100), Ok((2, 0x3000, 0, 8)));
    assert_eq!(section_range(&view, 0x5000, None, None, 0x100), Err(ErrorKind::NotFound));
}

#[test]
fn show_last_byte_prints_one_padded_line() {
    let out = text(show_data(Some(b".data"), None, false, 0x30ff, &[0x41]));
    let pad = " ".repeat(3 * 15);
    assert_eq!(out, format!("section: .data\n0x00000000000030ff  41 {} A\n", pad));
}

#[test]
fn show_data_dumps_sixteen_bytes_a_line() {
    let data: Vec<u8> = (0u8..20).map(|b| b + 0x3e).collect();
    let out = text(show_data(None, Some(b"x"), true, 0x10, &data));
    let lines: Vec<&str> = out.lines().collect();
    assert_eq!(lines.len(), 3);
    assert_eq!(lines[0], "\x1b[36msymbol:\x1b[39m x");
    assert_eq!(
        lines[1],
        "0x0000000000000010  3e 3f 40 41 42 43 44 45 46 47 48 49 4a 4b 4c 4d  >?@ABCDEFGHIJKLM"
    );
    assert!(lines[2].starts_with("0x0000000000000020  4e 4f 50 51 "));
}

#[test]
fn dwarf_top_sums_bytes_per_function() {
    let ranges = vec![
        SourceLine { start: 0, end: 4, file: None, line: None, column: None },
        SourceLine { start: 4, end: 5, file: None, line: None, column: None },
        SourceLine { start: 5, end: 7, file: None, line: None, column: None },
    ];
    let frames = vec![Some("f".to_string()), None, Some("f".to_string())];
    let out = text(dwarf_top(&ranges, &frames, false));
    assert_eq!(out, "         1\t<unknown>\n         6\tf\n");
}

#[test]
fn source_lines_split_like_std() {
    let t = b"a\r\nbb\n\nc";
    assert_eq!(text_line(t, 0), Some((0, 1)));
    assert_eq!(text_line(t, 1), Some((3, 5)));
    assert_eq!(text_line(t, 2), Some((6, 6)));
    assert_eq!(text_line(t, 3), Some((7, 8)));
    assert_eq!(text_line(t, 4), None);
}
