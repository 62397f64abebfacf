use vstd::prelude::*;
use vstd::string::StringExecFns;
use vstd::string::StringSliceAdditionalSpecFns;
use vstd::utf8::encode_utf8;
use crate::error::ErrorKind;
use crate::explorer::{size_spec, symlist_sorted};
use crate::model::{DynReloc, Explorer, Section, SectionKind, SymbolKind, SymbolSection};
use crate::disasm::{target_spec, Disassembler, Inst};
use crate::pattern::demangle;
use crate::search::{is_permutation, shown_name};
use crate::explorer::{pair_le, sort_distinct_pairs};
use crate::resolve::{map_pos, query_symbol_by_addr, relocs_sorted, resolve_spec};
use crate::text::{addr_text, dec_digits, pad_left, push_addr, push_all, push_dec_padded, spaces};
use crate::printers::{ascii_cells, hex_cells, hyperlink_bytes, AsciiPrinter, HexPrinter, Hyperlink};

verus! {

/// Options of the `show` query.
pub struct ShowCommand {
    /// The address to show, in hex or decimal.
    pub address: String,
    pub length: Option<u64>,
    /// Show a section's bytes instead of the symbol at the address.
    pub no_symbol: bool,
    /// Write raw bytes instead of a listing.
    pub dump: bool,
    pub demangle: bool,
    pub align: Option<u64>,
    pub dwarf: bool,
    pub dwarf_path: Option<String>,
    pub dwarf_top: bool,
}

/// `s` in the terminal's cyan: the foreground escape for cyan, then the
/// escape that restores the default foreground.
pub open spec fn cyan(s: Seq<u8>) -> Seq<u8> {
    seq![27u8, 91u8, 51u8, 54u8, 109u8] + s + seq![27u8, 91u8, 51u8, 57u8, 109u8]
}

/// `s` dimmed: the dim escape, then the reset escape.
pub open spec fn dimmed(s: Seq<u8>) -> Seq<u8> {
    seq![27u8, 91u8, 50u8, 109u8] + s + seq![27u8, 91u8, 48u8, 109u8]
}

/// Appends `s`, in cyan where `on` holds.
pub fn push_cyan(out: &mut Vec<u8>, s: &[u8], on: bool)
    ensures
        final(out)@ == old(out)@ + if on {
            cyan(s@)
        } else {
            s@
        },
{
    if on {
        out.push(27);
        out.push(91);
        out.push(51);
        out.push(54);
        out.push(109);
    }
    push_all(out, s);
    if on {
        out.push(27);
        out.push(91);
        out.push(51);
        out.push(57);
        out.push(109);
    }
    assert(final(out)@ =~= old(out)@ + if on {
        cyan(s@)
    } else {
        s@
    });
}

/// Appends `s`, dimmed where `on` holds.
pub fn push_dimmed(out: &mut Vec<u8>, s: &[u8], on: bool)
    ensures
        final(out)@ == old(out)@ + if on {
            dimmed(s@)
        } else {
            s@
        },
{
    if on {
        out.push(27);
        out.push(91);
        out.push(50);
        out.push(109);
    }
    push_all(out, s);
    if on {
        out.push(27);
        out.push(91);
        out.push(48);
        out.push(109);
    }
    assert(final(out)@ =~= old(out)@ + if on {
        dimmed(s@)
    } else {
        s@
    });
}

/// `k` is the first list entry at address `a`.
pub open spec fn is_first_at(view: &Explorer, sl: Seq<usize>, a: u64, k: int) -> bool {
    &&& 0 <= k < sl.len()
    &&& view.sym_addr(sl[k] as int) == a
    &&& forall|m: int| 0 <= m < k ==> view.sym_addr(sl[m] as int) != a
}

pub open spec fn first_at(view: &Explorer, sl: Seq<usize>, a: u64) -> Option<int> {
    if exists|k: int| is_first_at(view, sl, a, k) {
        Some(choose|k: int| is_first_at(view, sl, a, k))
    } else {
        None
    }
}

/// The entry of the symbol map that precedes address `a`: the last one
/// below it, or the first one where none is below.
pub open spec fn is_preceding(view: &Explorer, a: u64, k: int) -> bool {
    &&& 0 <= k < view.symbol_map@.len()
    &&& (view.symbol_map@[k].address < a || k == 0)
    &&& forall|m: int|
        k < m < view.symbol_map@.len() ==> view.symbol_map@[m].address > a
}

/// The symbol that `show` displays for address `a`, as a position in the
/// symbol map and a position in the symbol table: the map entry at `a`, or
/// else the map entry before `a` where `a` lies within its recorded extent;
/// the table symbol is the first at the entry's address in list order.
pub open spec fn shown_symbol(view: &Explorer, sl: Seq<usize>, a: u64) -> Result<
    (int, usize),
    ErrorKind,
> {
    match map_pos(view, a) {
        Some(k) => match first_at(view, sl, a) {
            Some(j) => Ok((k, sl[j])),
            None => Err(ErrorKind::NotFound),
        },
        None => if view.symbol_map@.len() == 0 {
            Err(ErrorKind::NotFound)
        } else {
            let k = choose|k: int| is_preceding(view, a, k);
            match first_at(view, sl, view.symbol_map@[k].address) {
                Some(j) => {
                    let s = view.symbols@[sl[j] as int];
                    if s.address <= a && a < s.address + s.size {
                        Ok((k, sl[j]))
                    } else {
                        Err(ErrorKind::NotFound)
                    }
                },
                None => Err(ErrorKind::NotFound),
            }
        },
    }
}

fn first_at_address(view: &Explorer, sl: &[usize], a: u64) -> (r: Option<usize>)
    requires
        symlist_sorted(view, sl@),
    ensures
        match r {
            Some(j) => first_at(view, sl@, a) == Some(j as int),
            None => first_at(view, sl@, a) is None,
        },
{
    let mut lo: usize = 0;
    let mut hi: usize = sl.len();
    while lo < hi
        invariant
            symlist_sorted(view, sl@),
            lo <= hi <= sl@.len(),
            forall|m: int| 0 <= m < lo ==> view.sym_addr(sl@[m] as int) < a,
            forall|m: int| hi <= m < sl@.len() ==> view.sym_addr(sl@[m] as int) >= a,
        decreases hi - lo,
    {
        let mid = lo + (hi - lo) / 2;
        if view.symbols[sl[mid]].address < a {
            lo = mid + 1;
        } else {
            hi = mid;
        }
    }
    if lo < sl.len() && view.symbols[sl[lo]].address == a {
        assert(is_first_at(view, sl@, a, lo as int));
        let ghost c = choose|c: int| is_first_at(view, sl@, a, c);
        assert(c == lo as int) by {
            if c < lo {
            } else if c > lo {
            }
        }
        Some(lo)
    } else {
        assert forall|c: int| !is_first_at(view, sl@, a, c) by {
            if 0 <= c < sl@.len() && view.sym_addr(sl@[c] as int) == a && lo < sl@.len() {
                assert(view.sym_addr(sl@[lo as int] as int) <= view.sym_addr(sl@[c] as int)) by {
                    if c < lo {
                    }
                }
            }
        }
        None
    }
}

/// Finds the symbol that `show` displays for address `a`.
pub fn locate_symbol(view: &Explorer, sl: &[usize], a: u64) -> (r: Result<
    (usize, usize),
    ErrorKind,
>)
    requires
        view.wf(),
        symlist_sorted(view, sl@),
    ensures
        match shown_symbol(view, sl@, a) {
            Ok((k, p)) => r == Ok::<(usize, usize), ErrorKind>((k as usize, p)),
            Err(e) => r == Err::<(usize, usize), ErrorKind>(e),
        },
{
    if let Some(k) = crate::resolve::map_lookup(view, a) {
        return match first_at_address(view, sl, a) {
            Some(j) => Ok((k, sl[j])),
            None => Err(ErrorKind::NotFound),
        };
    }
    let n = view.symbol_map.len();
    if n == 0 {
        return Err(ErrorKind::NotFound);
    }
    let mut lo: usize = 0;
    let mut hi: usize = n;
    while lo < hi
        invariant
            view.wf(),
            n == view.symbol_map@.len(),
            lo <= hi <= n,
            forall|m: int| 0 <= m < lo ==> view.symbol_map@[m].address < a,
            forall|m: int| hi <= m < n ==> view.symbol_map@[m].address > a,
            map_pos(view, a) is None,
        decreases hi - lo,
    {
        let mid = lo + (hi - lo) / 2;
        let x = view.symbol_map[mid].address;
        if x < a {
            lo = mid + 1;
        } else {
            if x == a {
                assert(exists|k: int|
                    0 <= k < view.symbol_map@.len() && view.symbol_map@[k].address == a);
            }
            hi = mid;
        }
    }
    let k = if lo == 0 {
        0
    } else {
        lo - 1
    };
    proof {
        assert(is_preceding(view, a, k as int));
        let c = choose|c: int| is_preceding(view, a, c);
        assert(c == k as int) by {
            if c < k {
                assert(view.symbol_map@[k as int].address > a || view.symbol_map@[k as int].address
                    < a);
            } else if c > k {
                assert(view.symbol_map@[c].address > a);
            }
        }
    }
    match first_at_address(view, sl, view.symbol_map[k].address) {
        Some(j) => {
            let p = sl[j];
            let s = &view.symbols[p];
            if s.address <= a && (a as u128) < s.address as u128 + s.size as u128 {
                Ok((k, p))
            } else {
                Err(ErrorKind::NotFound)
            }
        },
        None => Err(ErrorKind::NotFound),
    }
}

pub open spec fn is_uninit(k: SectionKind) -> bool {
    k == SectionKind::UninitializedData || k == SectionKind::UninitializedTls
}

/// Where the bytes of symbol `p` lie in its section's data of `data_len`
/// bytes: the section's position and a byte range, empty for sections
/// without contents.
pub open spec fn symbol_bytes(view: &Explorer, sl: Seq<usize>, p: usize, data_len: nat) -> Result<
    (int, int, int),
    ErrorKind,
> {
    let sym = view.symbols@[p as int];
    match home_section(view, p) {
        Some(sp) => {
            let sec = view.sections@[sp];
            if sym.address < sec.address {
                Err(ErrorKind::NotFound)
            } else {
                match size_spec(view, sl, &sym) {
                    Err(e) => Err(e),
                    Ok(z) => {
                        let off = sym.address - sec.address;
                        if is_uninit(sec.kind) {
                            Ok((sp, 0, 0))
                        } else if off + z > data_len {
                            Err(ErrorKind::NotFound)
                        } else {
                            Ok((sp, off, off + z))
                        }
                    },
                }
            }
        },
        None => Err(ErrorKind::NotFound),
    }
}

/// The position of the section that symbol `p` is defined in.
pub open spec fn home_section(view: &Explorer, p: usize) -> Option<int> {
    match view.symbols@[p as int].section {
        SymbolSection::Section(i) => view.section_pos(i),
        _ => None,
    }
}

/// The section of symbol `p`, as a position in `sections`.
pub fn symbol_section(view: &Explorer, p: usize) -> (r: Option<usize>)
    requires
        p < view.symbols@.len(),
    ensures
        match r {
            Some(k) => home_section(view, p) == Some(k as int),
            None => home_section(view, p) is None,
        },
{
    match view.symbols[p].section {
        SymbolSection::Section(i) => view.find_section(i),
        _ => None,
    }
}

/// Finds where the bytes of symbol `p` lie in its section's data.
pub fn symbol_range(view: &Explorer, sl: &[usize], p: usize, data_len: usize) -> (r: Result<
    (usize, usize, usize),
    ErrorKind,
>)
    requires
        p < view.symbols@.len(),
        symlist_sorted(view, sl@),
    ensures
        match r {
            Ok((q0, q1, q2)) => symbol_bytes(view, sl@, p, data_len as nat) == Ok::<_, ErrorKind>(
                (q0 as int, q1 as int, q2 as int),
            ),
            Err(x) => symbol_bytes(view, sl@, p, data_len as nat) == Err::<(int, int, int), ErrorKind>(
                x,
            ),
        },
{
    let sp = match symbol_section(view, p) {
        Some(sp) => sp,
        None => {
            return Err(ErrorKind::NotFound);
        },
    };
    let sec = &view.sections[sp];
    let a = view.symbols[p].address;
    if a < sec.address {
        return Err(ErrorKind::NotFound);
    }
    let z = match view.symbol_size(sl, p) {
        Ok(z) => z,
        Err(e) => {
            return Err(e);
        },
    };
    let off = a - sec.address;
    if sec.kind == SectionKind::UninitializedData || sec.kind == SectionKind::UninitializedTls {
        return Ok((sp, 0, 0));
    }
    if off as u128 + z as u128 > data_len as u128 {
        return Err(ErrorKind::NotFound);
    }
    Ok((sp, off as usize, (off + z) as usize))
}

pub open spec fn holds(s: &Section, a: u64) -> bool {
    s.address <= a < s.end()
}

fn holds_address(s: &Section, a: u64) -> (r: bool)
    ensures
        r == holds(s, a),
{
    s.address <= a && (a as u128) < s.address as u128 + s.size as u128
}

/// `k` is the first section that holds address `a`.
pub open spec fn is_first_holding(view: &Explorer, a: u64, k: int) -> bool {
    &&& 0 <= k < view.sections@.len()
    &&& holds(&view.sections@[k], a)
    &&& forall|m: int| 0 <= m < k ==> !holds(&view.sections@[m], a)
}

pub open spec fn section_holding(view: &Explorer, a: u64) -> Option<int> {
    if exists|k: int| is_first_holding(view, a, k) {
        Some(choose|k: int| is_first_holding(view, a, k))
    } else {
        None
    }
}

/// `a` aligned down to a multiple of `align`, unless that would leave the
/// section that starts at `floor`, or `align` is zero.
pub open spec fn align_down(a: u64, align: u64, floor: u64) -> u64 {
    if align > 0 && a - a % align >= floor {
        (a - a % align) as u64
    } else {
        a
    }
}

/// What `show --no-symbol` displays for address `a`: the first section
/// that holds it, the start address after alignment, and a byte range of
/// the section's data of `data_len` bytes that is at most `length` long,
/// 256 by default.
pub open spec fn section_window(
    view: &Explorer,
    a: u64,
    align: Option<u64>,
    length: Option<u64>,
    data_len: nat,
) -> Option<(int, u64, int, int)> {
    match section_holding(view, a) {
        None => None,
        Some(sp) => {
            let sec = view.sections@[sp];
            let al = match align {
                Some(x) => x,
                None => sec.align,
            };
            let b = align_down(a, al, sec.address);
            let off = b - sec.address;
            let want = match length {
                Some(l) => l as int,
                None => 256,
            };
            let start = if off <= data_len {
                off
            } else {
                data_len as int
            };
            let len = if want <= data_len - start {
                want
            } else {
                data_len - start
            };
            Some((sp, b, start, start + len))
        },
    }
}

/// Finds what `show --no-symbol` displays for address `a`.
pub fn section_range(
    view: &Explorer,
    a: u64,
    align: Option<u64>,
    length: Option<u64>,
    data_len: usize,
) -> (r: Result<(usize, u64, usize, usize), ErrorKind>)
    ensures
        match section_window(view, a, align, length, data_len as nat) {
            Some((sp, b, s, e)) => r == Ok::<_, ErrorKind>((sp as usize, b, s as usize, e as usize)),
            None => r == Err::<(usize, u64, usize, usize), ErrorKind>(ErrorKind::NotFound),
        },
{
    let mut k: usize = 0;
    while k < view.sections.len() && !holds_address(&view.sections[k], a)
        invariant
            k <= view.sections@.len(),
            forall|m: int| 0 <= m < k ==> !holds(&view.sections@[m], a),
        decreases view.sections@.len() - k,
    {
        k = k + 1;
    }
    if k >= view.sections.len() {
        assert forall|c: int| !is_first_holding(view, a, c) by {}
        return Err(ErrorKind::NotFound);
    }
    proof {
        assert(is_first_holding(view, a, k as int));
        let c = choose|c: int| is_first_holding(view, a, c);
        assert(c == k as int) by {
            if c < k {
            } else if c > k {
            }
        }
    }
    let sec = &view.sections[k];
    let al = match align {
        Some(x) => x,
        None => sec.align,
    };
    let b = if al > 0 {
        let rem = a % al;
        assert(rem <= a) by (nonlinear_arith)
            requires
                al > 0,
                rem == a % al,
        ;
        if a - rem >= sec.address {
            a - rem
        } else {
            a
        }
    } else {
        a
    };
    let off = b - sec.address;
    let want: u64 = match length {
        Some(l) => l,
        None => 256,
    };
    let start: usize = if off <= data_len as u64 {
        off as usize
    } else {
        data_len
    };
    let avail = data_len - start;
    let len: usize = if want <= avail as u64 {
        want as usize
    } else {
        avail
    };
    Ok((k, b, start, start + len))
}

/// One line of a hex dump: address, sixteen hex cells, the ASCII column.
pub open spec fn dump_line(addr: u64, chunk: Seq<u8>) -> Seq<u8> {
    addr_text(addr) + seq![32u8, 32u8] + hex_cells(chunk, 16) + seq![32u8] + ascii_cells(chunk)
        + seq![10u8]
}

pub open spec fn chunk_of(data: Seq<u8>, i: nat) -> Seq<u8> {
    data.subrange(
        16 * i as int,
        if 16 * i + 16 <= data.len() {
            (16 * i + 16) as int
        } else {
            data.len() as int
        },
    )
}

/// The first `k` lines of the hex dump of `data` shown from address
/// `start`; addresses wrap around at the top of the address space.
pub open spec fn dump_lines(start: u64, data: Seq<u8>, k: nat) -> Seq<u8>
    decreases k,
{
    if k == 0 {
        Seq::empty()
    } else {
        dump_lines(start, data, (k - 1) as nat) + dump_line(
            ((start + 16 * (k - 1)) % 0x1_0000_0000_0000_0000) as u64,
            chunk_of(data, (k - 1) as nat),
        )
    }
}

pub open spec fn line_count(len: nat) -> nat {
    (len + 15) / 16
}

/// A header line: a label, in cyan where colours are on, and a value.
pub open spec fn header(colored: bool, label: Seq<u8>, value: Seq<u8>) -> Seq<u8> {
    (if colored {
        cyan(label)
    } else {
        label
    }) + seq![32u8] + value + seq![10u8]
}

pub open spec fn section_label() -> Seq<u8> {
    seq![115u8, 101u8, 99u8, 116u8, 105u8, 111u8, 110u8, 58u8]
}

pub open spec fn symbol_label() -> Seq<u8> {
    seq![115u8, 121u8, 109u8, 98u8, 111u8, 108u8, 58u8]
}

/// What `show` prints for data: the section and symbol headers where
/// known, then the hex dump.
pub open spec fn data_listing(
    section_name: Option<Seq<u8>>,
    symbol_name: Option<Seq<u8>>,
    colored: bool,
    start: u64,
    data: Seq<u8>,
) -> Seq<u8> {
    (match section_name {
        Some(n) => header(colored, section_label(), n),
        None => Seq::empty(),
    }) + (match symbol_name {
        Some(n) => header(colored, symbol_label(), n),
        None => Seq::empty(),
    }) + dump_lines(start, data, line_count(data.len()))
}

fn push_label(out: &mut Vec<u8>, section: bool, colored: bool)
    ensures
        final(out)@ == old(out)@ + if colored {
            cyan(
                if section {
                    section_label()
                } else {
                    symbol_label()
                },
            )
        } else {
            if section {
                section_label()
            } else {
                symbol_label()
            }
        },
{
    let mut l: Vec<u8> = Vec::new();
    if section {
        l.push(115);
        l.push(101);
        l.push(99);
        l.push(116);
        l.push(105);
        l.push(111);
        l.push(110);
        l.push(58);
        assert(l@ =~= section_label());
    } else {
        l.push(115);
        l.push(121);
        l.push(109);
        l.push(98);
        l.push(111);
        l.push(108);
        l.push(58);
        assert(l@ =~= symbol_label());
    }
    push_cyan(out, l.as_slice(), colored);
}

/// Appends a header line.
pub fn push_header(out: &mut Vec<u8>, section: bool, colored: bool, value: &[u8])
    ensures
        final(out)@ == old(out)@ + header(
            colored,
            if section {
                section_label()
            } else {
                symbol_label()
            },
            value@,
        ),
{
    push_label(out, section, colored);
    out.push(32);
    push_all(out, value);
    out.push(10);
    assert(final(out)@ =~= old(out)@ + header(
        colored,
        if section {
            section_label()
        } else {
            symbol_label()
        },
        value@,
    ));
}

/// Prints data as `show` does: headers, then sixteen bytes a line.
pub fn show_data(
    section_name: Option<&[u8]>,
    symbol_name: Option<&[u8]>,
    colored: bool,
    start: u64,
    data: &[u8],
) -> (r: Vec<u8>)
    ensures
        r@ == data_listing(
            match section_name {
                Some(n) => Some(n@),
                None => None,
            },
            match symbol_name {
                Some(n) => Some(n@),
                None => None,
            },
            colored,
            start,
            data@,
        ),
{
    let mut out: Vec<u8> = Vec::new();
    match section_name {
        Some(n) => push_header(&mut out, true, colored, n),
        None => {},
    }
    match symbol_name {
        Some(n) => push_header(&mut out, false, colored, n),
        None => {},
    }
    let ghost head = out@;
    let n = data.len() / 16 + if data.len() % 16 != 0 {
        1
    } else {
        0
    };
    assert(n == line_count(data@.len()));
    let mut i: usize = 0;
    while i < n
        invariant
            n == line_count(data@.len()),
            i <= n,
            out@ == head + dump_lines(start, data@, i as nat),
            data@.len() == data.len(),
        decreases n - i,
    {
        assert(16 * i < data@.len()) by (nonlinear_arith)
            requires
                i < n,
                n == (data@.len() + 15) / 16,
        ;
        let off = 16 * i;
        let end = if data.len() - off >= 16 {
            off + 16
        } else {
            data.len()
        };
        let chunk = vstd::slice::slice_subrange(data, off, end);
        let addr = ((start as u128 + off as u128) % 0x1_0000_0000_0000_0000) as u64;
        push_addr(&mut out, addr);
        out.push(32);
        out.push(32);
        HexPrinter(chunk, 16).render(&mut out);
        out.push(32);
        AsciiPrinter(chunk).render(&mut out);
        out.push(10);
        proof {
            assert(chunk@ =~= chunk_of(data@, i as nat));
        }
        i = i + 1;
        assert(out@ =~= head + dump_lines(start, data@, i as nat));
    }
    assert(out@ =~= data_listing(
        match section_name {
            Some(n) => Some(n@),
            None => None,
        },
        match symbol_name {
            Some(n) => Some(n@),
            None => None,
        },
        colored,
        start,
        data@,
    ));
    out
}

/// Data of one to sixteen bytes, such as the last byte of a section, shows
/// as exactly one line, its hex column padded with blank cells.
pub proof fn lemma_short_data_one_line(start: u64, data: Seq<u8>)
    requires
        1 <= data.len() <= 16,
    ensures
        dump_lines(start, data, line_count(data.len())) == dump_line(start, data),
        hex_cells(data, 16) == hex_cells(data, data.len()) + spaces(3 * (16 - data.len()) as nat),
{
    assert(line_count(data.len()) == 1);
    assert(chunk_of(data, 0) =~= data);
    assert(dump_lines(start, data, 0) =~= Seq::<u8>::empty());
    assert((start + 0) % 0x1_0000_0000_0000_0000 == start);
    lemma_hex_cells_pad(data, 16);
}

proof fn lemma_hex_cells_pad(b: Seq<u8>, width: nat)
    requires
        b.len() <= width,
    ensures
        hex_cells(b, width) == hex_cells(b, b.len()) + spaces(3 * (width - b.len()) as nat),
    decreases b.len(),
{
    if b.len() == 0 {
        assert(hex_cells(b, 0) =~= Seq::<u8>::empty());
        assert(spaces(0) =~= Seq::<u8>::empty());
        assert(spaces(3 * width) =~= Seq::<u8>::empty() + spaces(3 * width));
    } else {
        lemma_hex_cells_pad(b.drop_first(), (width - 1) as nat);
        assert(hex_cells(b, width) =~= hex_cells(b, b.len()) + spaces(
            3 * (width - b.len()) as nat,
        ));
    }
}

pub open spec fn paint_dim(on: bool, s: Seq<u8>) -> Seq<u8> {
    if on {
        dimmed(s)
    } else {
        s
    }
}

/// What follows an instruction whose branch target resolves: a tab, `# `,
/// the symbol name as shown, ` @ ` and the symbol's address.
#[verifier::opaque]
pub open spec fn annotation(
    view: &Explorer,
    rel: Seq<DynReloc>,
    d: Disassembler,
    inst: &Inst,
    demangle: bool,
) -> Seq<u8> {
    match target_spec(d, inst) {
        Ok(Some(x)) => match resolve_spec(view, rel, x) {
            Some((n, y)) => seq![9u8, 35u8, 32u8] + encode_utf8(shown_name(demangle, n)) + seq![
                32u8,
                64u8,
                32u8,
            ] + addr_text(y),
            None => Seq::empty(),
        },
        _ => Seq::empty(),
    }
}

/// One disassembly line: address, up to eight bytes in hex, the
/// instruction's text and its annotation.
#[verifier::opaque]
pub open spec fn asm_line(inst: &Inst, colored: bool, annot: Seq<u8>) -> Seq<u8> {
    addr_text(inst.address) + seq![32u8, 32u8] + paint_dim(colored, hex_cells(inst.bytes@, 8))
        + seq![32u8, 32u8] + encode_utf8(inst.text@) + paint_dim(colored, annot) + seq![10u8]
}

/// Appends the annotation of `inst`.
pub fn push_annotation(
    out: &mut Vec<u8>,
    view: &Explorer,
    rel: &[DynReloc],
    d: Disassembler,
    inst: &Inst,
    demangle_names: bool,
)
    requires
        view.wf(),
        relocs_sorted(rel@),
    ensures
        final(out)@ == old(out)@ + annotation(view, rel@, d, inst, demangle_names),
{
    reveal(annotation);
    if let Ok(Some(x)) = d.operand2addr(inst) {
        if let Some((n, y)) = query_symbol_by_addr(view, rel, x) {
            let shown = if demangle_names {
                demangle(n.as_str())
            } else {
                n
            };
            out.push(9);
            out.push(35);
            out.push(32);
            push_all(out, shown.as_str().as_bytes());
            out.push(32);
            out.push(64);
            out.push(32);
            push_addr(out, y);
            assert(final(out)@ =~= old(out)@ + annotation(view, rel@, d, inst, demangle_names));
            return;
        }
    }
    assert(final(out)@ =~= old(out)@ + annotation(view, rel@, d, inst, demangle_names));
}

/// Appends the disassembly line of `inst`.
#[verifier::rlimit(60)]
pub fn push_asm_line(
    out: &mut Vec<u8>,
    view: &Explorer,
    rel: &[DynReloc],
    d: Disassembler,
    inst: &Inst,
    demangle_names: bool,
    colored: bool,
)
    requires
        view.wf(),
        relocs_sorted(rel@),
    ensures
        final(out)@ == old(out)@ + asm_line(
            inst,
            colored,
            annotation(view, rel@, d, inst, demangle_names),
        ),
{
    let mut cells: Vec<u8> = Vec::new();
    HexPrinter(inst.bytes.as_slice(), 8).render(&mut cells);
    let mut annot: Vec<u8> = Vec::new();
    push_annotation(&mut annot, view, rel, d, inst, demangle_names);
    let ghost an = annotation(view, rel@, d, inst, demangle_names);
    assert(cells@ =~= hex_cells(inst.bytes@, 8));
    assert(annot@ =~= an);
    let ghost s0 = old(out)@;
    push_addr(out, inst.address);
    out.push(32);
    out.push(32);
    let ghost s1 = out@;
    assert(s1 =~= s0 + addr_text(inst.address) + seq![32u8, 32u8]);
    push_dimmed(out, cells.as_slice(), colored);
    out.push(32);
    out.push(32);
    let ghost s2 = out@;
    assert(s2 =~= s1 + paint_dim(colored, hex_cells(inst.bytes@, 8)) + seq![32u8, 32u8]);
    push_all(out, inst.text.as_str().as_bytes());
    push_dimmed(out, annot.as_slice(), colored);
    out.push(10);
    assert(out@ =~= s2 + encode_utf8(inst.text@) + paint_dim(colored, an) + seq![10u8]);
    reveal(asm_line);
    assert(out@ =~= s0 + asm_line(inst, colored, an));
}

/// A range of code addresses and the source position it comes from.
#[derive(Clone, Copy, Debug, PartialEq, Eq, Structural)]
pub struct SourceLine {
    pub start: u64,
    pub end: u64,
    /// Index into the list of source files.
    pub file: Option<usize>,
    pub line: Option<u32>,
    pub column: Option<u32>,
}

/// Source positions for a disassembly: the files, their contents where
/// readable, and the address ranges sorted by start.
pub struct SourceMap {
    pub files: Vec<String>,
    pub texts: Vec<Option<Vec<u8>>>,
    pub lines: Vec<SourceLine>,
}

pub open spec fn file_ok(l: SourceLine, n: nat) -> bool {
    match l.file {
        Some(f) => f < n,
        None => true,
    }
}

impl SourceMap {
    pub open spec fn wf(&self) -> bool {
        &&& self.texts@.len() == self.files@.len()
        &&& forall|i: int|
            0 <= i < self.lines@.len() ==> file_ok(#[trigger] self.lines@[i], self.files@.len())
    }
}

/// Where the line that starts at `from` ends: at the next newline, or at the
/// end of the text.
pub open spec fn line_end(text: Seq<u8>, from: int) -> int
    decreases text.len() - from,
{
    if from >= text.len() || text[from] == 10 {
        from
    } else {
        line_end(text, from + 1)
    }
}

/// Line `n` (from zero) of `text` from offset `from` on, as std's `lines`
/// splits it: at newlines, dropping a carriage return before one, with no
/// empty line after a final newline.
pub open spec fn nth_line(text: Seq<u8>, from: int, n: nat) -> Option<Seq<u8>>
    decreases text.len() - from,
{
    if from < 0 || from >= text.len() {
        None
    } else if n == 0 {
        let e = line_end(text, from);
        let seg = text.subrange(from, e);
        if e < text.len() && seg.len() > 0 && seg.last() == 13 {
            Some(seg.drop_last())
        } else {
            Some(seg)
        }
    } else if text[from] == 10 {
        nth_line(text, from + 1, (n - 1) as nat)
    } else {
        nth_line(text, from + 1, n)
    }
}

proof fn lemma_skip_line(text: Seq<u8>, from: int, n: nat)
    requires
        0 <= from < text.len(),
        n > 0,
    ensures
        line_end(text, from) < text.len() ==> nth_line(text, from, n) == nth_line(
            text,
            line_end(text, from) + 1,
            (n - 1) as nat,
        ),
        line_end(text, from) >= text.len() ==> nth_line(text, from, n) is None,
    decreases text.len() - from,
{
    if text[from] != 10 {
        if from + 1 < text.len() {
            lemma_skip_line(text, from + 1, n);
        }
    }
}

/// The last path component, as std's `Path::file_name` gives it.
pub uninterp spec fn file_name_of(path: Seq<char>) -> Option<Seq<char>>;

/// Relies on `Path::file_name`: the last component of the path, if any.
#[verifier::external_body]
fn path_file_name(path: &str) -> (r: Option<String>)
    ensures
        match r {
            Some(n) => file_name_of(path@) == Some(n@),
            None => file_name_of(path@) is None,
        },
{
    match std::path::Path::new(path).file_name() {
        Some(n) => n.to_str().map(str::to_owned),
        None => None,
    }
}

pub open spec fn opt_num(v: Option<u32>) -> Seq<u8> {
    match v {
        Some(x) => dec_digits(x as nat),
        None => seq![63u8],
    }
}

/// The line that names a source file: `file:`, the path (as a hyperlink on
/// its file name where links are on), and `:line,column`.
#[verifier::opaque]
pub open spec fn file_header(
    colored: bool,
    hyperlink: bool,
    path: Seq<char>,
    line: Option<u32>,
    column: Option<u32>,
) -> Seq<u8> {
    let file_label = seq![102u8, 105u8, 108u8, 101u8, 58u8];
    let shown = if hyperlink {
        hyperlink_bytes(
            match file_name_of(path) {
                Some(n) => encode_utf8(n),
                None => Seq::empty(),
            },
            encode_utf8(path),
        )
    } else {
        encode_utf8(path)
    };
    (if colored {
        cyan(file_label)
    } else {
        file_label
    }) + seq![32u8] + paint_dim(colored, shown) + paint_dim(
        colored,
        seq![58u8] + opt_num(line) + seq![44u8] + opt_num(column),
    ) + seq![10u8]
}

/// The source text line for a position, dimmed up to its column, where the
/// file's text and that line exist.
#[verifier::opaque]
pub open spec fn source_text(colored: bool, text: Option<Vec<u8>>, line: Option<u32>, column: Option<u32>) -> Seq<u8> {
    match (text, line) {
        (Some(t), Some(n)) => match nth_line(t@, 0, if n >= 1 { (n - 1) as nat } else { 0 }) {
            Some(l) => {
                let c = match column {
                    Some(c) => if c >= 1 { c - 1 } else { 0 },
                    None => 0,
                };
                let mid = if c <= l.len() { c as int } else { l.len() as int };
                paint_dim(colored, l.subrange(0, mid)) + l.subrange(mid, l.len() as int) + seq![10u8]
            },
            None => Seq::empty(),
        },
        _ => Seq::empty(),
    }
}

fn push_opt_num(out: &mut Vec<u8>, v: Option<u32>)
    ensures
        final(out)@ == old(out)@ + opt_num(v),
{
    match v {
        Some(x) => crate::text::push_dec(out, x as u128),
        None => {
            out.push(63);
            assert(final(out)@ =~= old(out)@ + opt_num(v));
        },
    }
}

fn push_file_header(
    out: &mut Vec<u8>,
    colored: bool,
    hyperlink: bool,
    path: &String,
    line: Option<u32>,
    column: Option<u32>,
)
    ensures
        final(out)@ == old(out)@ + file_header(colored, hyperlink, path@, line, column),
{
    reveal(file_header);
    let mut label: Vec<u8> = Vec::new();
    label.push(102);
    label.push(105);
    label.push(108);
    label.push(101);
    label.push(58);
    push_cyan(out, label.as_slice(), colored);
    out.push(32);
    let mut shown: Vec<u8> = Vec::new();
    if hyperlink {
        let name = match path_file_name(path.as_str()) {
            Some(n) => vstd::slice::slice_to_vec(n.as_str().as_bytes()),
            None => Vec::new(),
        };
        let link = Hyperlink::new(name, vstd::slice::slice_to_vec(path.as_str().as_bytes()));
        link.render(&mut shown);
    } else {
        push_all(&mut shown, path.as_str().as_bytes());
    }
    push_dimmed(out, shown.as_slice(), colored);
    let mut pos: Vec<u8> = Vec::new();
    pos.push(58);
    push_opt_num(&mut pos, line);
    pos.push(44);
    push_opt_num(&mut pos, column);
    push_dimmed(out, pos.as_slice(), colored);
    out.push(10);
    proof {
        assert(label@ =~= seq![102u8, 105u8, 108u8, 101u8, 58u8]);
        assert(pos@ =~= seq![58u8] + opt_num(line) + seq![44u8] + opt_num(column));
        if !hyperlink {
            assert(shown@ =~= encode_utf8(path@));
        }
    }
    assert(final(out)@ =~= old(out)@ + file_header(colored, hyperlink, path@, line, column));
}

fn find_line_end(text: &[u8], from: usize) -> (r: usize)
    requires
        from <= text@.len(),
    ensures
        r as int == line_end(text@, from as int),
        from <= r <= text@.len(),
{
    let mut e = from;
    while e < text.len() && text[e] != 10
        invariant
            from <= e <= text@.len(),
            line_end(text@, e as int) == line_end(text@, from as int),
        decreases text@.len() - e,
    {
        e = e + 1;
    }
    e
}

/// Finds line `n` of `text`, as `nth_line` states.
pub fn text_line(text: &[u8], n: u32) -> (r: Option<(usize, usize)>)
    ensures
        match nth_line(text@, 0, n as nat) {
            Some(l) => r matches Some((b, e)) && b <= e <= text@.len() && text@.subrange(
                b as int,
                e as int,
            ) == l,
            None => r is None,
        },
{
    let mut from: usize = 0;
    let mut k: u32 = 0;
    while k < n
        invariant
            k <= n,
            nth_line(text@, from as int, (n - k) as nat) == nth_line(text@, 0, n as nat),
            from <= text@.len() + 1,
        decreases n - k,
    {
        if from >= text.len() {
            return None;
        }
        let e = find_line_end(text, from);
        proof {
            lemma_skip_line(text@, from as int, (n - k) as nat);
        }
        if e >= text.len() {
            return None;
        }
        from = e + 1;
        k = k + 1;
    }
    if from >= text.len() {
        return None;
    }
    let e = find_line_end(text, from);
    if e < text.len() && e > from && text[e - 1] == 13 {
        assert(text@.subrange(from as int, e - 1) =~= text@.subrange(from as int, e as int).drop_last());
        Some((from, e - 1))
    } else {
        Some((from, e))
    }
}

#[verifier::rlimit(60)]
fn push_source_text(
    out: &mut Vec<u8>,
    colored: bool,
    text: &Option<Vec<u8>>,
    line: Option<u32>,
    column: Option<u32>,
)
    ensures
        final(out)@ == old(out)@ + source_text(colored, *text, line, column),
{
    reveal(source_text);
    match (text, line) {
        (Some(t), Some(n)) => {
            let k = if n >= 1 {
                n - 1
            } else {
                0
            };
            match text_line(t.as_slice(), k) {
                Some((b, e)) => {
                    let c: u32 = match column {
                        Some(c) => if c >= 1 {
                            c - 1
                        } else {
                            0
                        },
                        None => 0,
                    };
                    let len = e - b;
                    let mid = if (c as usize) <= len {
                        c as usize
                    } else {
                        len
                    };
                    let l = vstd::slice::slice_subrange(t.as_slice(), b, e);
                    push_dimmed(out, vstd::slice::slice_subrange(l, 0, mid), colored);
                    push_all(out, vstd::slice::slice_subrange(l, mid, len));
                    out.push(10);
                    assert(final(out)@ =~= old(out)@ + source_text(colored, *text, line, column));
                },
                None => {
                    assert(final(out)@ =~= old(out)@ + source_text(colored, *text, line, column));
                },
            }
        },
        _ => {
            assert(final(out)@ =~= old(out)@ + source_text(colored, *text, line, column));
        },
    }
}

/// One instruction of a disassembly listing, with the source lines that
/// come before it: from state `(cursor, last)`, where `cursor` is the next
/// source range to reach and `last` the file named last, to the new state
/// and the printed bytes.
#[verifier::opaque]
pub open spec fn listing_step(
    view: &Explorer,
    rel: Seq<DynReloc>,
    d: Disassembler,
    src: &SourceMap,
    demangle: bool,
    colored: bool,
    hyperlink: bool,
    inst: &Inst,
    cursor: nat,
    last: Option<usize>,
) -> (nat, Option<usize>, Seq<u8>) {
    let hit = cursor < src.lines@.len() && src.lines@[cursor as int].start <= inst.address
        && inst.address < src.lines@[cursor as int].end;
    let (c2, l2, pre) = if hit {
        let ln = src.lines@[cursor as int];
        match ln.file {
            Some(f) => {
                let hdr = if last != Some(f) {
                    file_header(colored, hyperlink, src.files@[f as int]@, ln.line, ln.column)
                } else {
                    Seq::empty()
                };
                (
                    cursor + 1,
                    Some(f),
                    hdr + source_text(colored, src.texts@[f as int], ln.line, ln.column),
                )
            },
            None => (cursor + 1, last, Seq::empty()),
        }
    } else {
        (cursor, last, Seq::empty())
    };
    (c2, l2, pre + asm_line(inst, colored, annotation(view, rel, d, inst, demangle)))
}

pub open spec fn listing_upto(
    view: &Explorer,
    rel: Seq<DynReloc>,
    d: Disassembler,
    src: &SourceMap,
    demangle: bool,
    colored: bool,
    hyperlink: bool,
    insts: Seq<Inst>,
    k: nat,
) -> (nat, Option<usize>, Seq<u8>)
    decreases k,
{
    if k == 0 {
        (0, None, Seq::empty())
    } else {
        let (c, l, o) = listing_upto(
            view,
            rel,
            d,
            src,
            demangle,
            colored,
            hyperlink,
            insts,
            (k - 1) as nat,
        );
        let (c2, l2, o2) = listing_step(
            view,
            rel,
            d,
            src,
            demangle,
            colored,
            hyperlink,
            &insts[k - 1],
            c,
            l,
        );
        (c2, l2, o + o2)
    }
}

#[verifier::rlimit(60)]
fn emit_inst(
    out: &mut Vec<u8>,
    view: &Explorer,
    rel: &[DynReloc],
    d: Disassembler,
    src: &SourceMap,
    inst: &Inst,
    cursor: &mut usize,
    last: &mut Option<usize>,
    demangle_names: bool,
    colored: bool,
    hyperlink: bool,
)
    requires
        view.wf(),
        relocs_sorted(rel@),
        src.wf(),
        *old(cursor) <= src.lines@.len(),
    ensures
        ({
            let st = listing_step(
                view,
                rel@,
                d,
                src,
                demangle_names,
                colored,
                hyperlink,
                inst,
                *old(cursor) as nat,
                *old(last),
            );
            st.0 == *final(cursor) && st.1 == *final(last) && final(out)@ == old(out)@ + st.2
        }),
        *final(cursor) <= src.lines@.len(),
{
    reveal(listing_step);
    let c = *cursor;
    if c < src.lines.len() && src.lines[c].start <= inst.address && inst.address
        < src.lines[c].end {
        let ln = src.lines[c];
        *cursor = c + 1;
        match ln.file {
            Some(f) => {
                assert(file_ok(src.lines@[c as int], src.files@.len()));
                if *last != Some(f) {
                    push_file_header(out, colored, hyperlink, &src.files[f], ln.line, ln.column);
                }
                *last = Some(f);
                push_source_text(out, colored, &src.texts[f], ln.line, ln.column);
            },
            None => {},
        }
    }
    let ghost mid = out@;
    push_asm_line(out, view, rel, d, inst, demangle_names, colored);
    assert(final(out)@ =~= old(out)@ + (mid.subrange(old(out)@.len() as int, mid.len() as int)
        + asm_line(inst, colored, annotation(view, rel@, d, inst, demangle_names))));
}

/// Prints the disassembly of a function as `show` does: the section and
/// symbol headers where known, then each instruction with the source lines
/// it starts.
#[verifier::rlimit(60)]
pub fn show_text(
    view: &Explorer,
    rel: &[DynReloc],
    d: Disassembler,
    insts: &Vec<Inst>,
    src: &SourceMap,
    section_name: Option<&[u8]>,
    symbol_name: Option<&[u8]>,
    demangle_names: bool,
    colored: bool,
    hyperlink: bool,
) -> (r: Vec<u8>)
    requires
        view.wf(),
        relocs_sorted(rel@),
        src.wf(),
    ensures
        r@ == (match section_name {
            Some(n) => header(colored, section_label(), n@),
            None => Seq::empty(),
        }) + (match symbol_name {
            Some(n) => header(colored, symbol_label(), n@),
            None => Seq::empty(),
        }) + listing_upto(
            view,
            rel@,
            d,
            src,
            demangle_names,
            colored,
            hyperlink,
            insts@,
            insts@.len(),
        ).2,
{
    let mut out: Vec<u8> = Vec::new();
    match section_name {
        Some(n) => push_header(&mut out, true, colored, n),
        None => {},
    }
    match symbol_name {
        Some(n) => push_header(&mut out, false, colored, n),
        None => {},
    }
    let ghost head = out@;
    let mut cursor: usize = 0;
    let mut last: Option<usize> = None;
    let mut k: usize = 0;
    while k < insts.len()
        invariant
            view.wf(),
            relocs_sorted(rel@),
            src.wf(),
            k <= insts@.len(),
            ({
                let st = listing_upto(
                    view,
                    rel@,
                    d,
                    src,
                    demangle_names,
                    colored,
                    hyperlink,
                    insts@,
                    k as nat,
                );
                st.0 == cursor && st.1 == last && out@ == head + st.2
            }),
            cursor <= src.lines@.len(),
        decreases insts@.len() - k,
    {
        let inst = &insts[k];
        let ghost o0 = out@;
        let ghost c0 = cursor;
        let ghost l0 = last;
        emit_inst(&mut out, view, rel, d, src, inst, &mut cursor, &mut last, demangle_names, colored, hyperlink);
        proof {
            let st = listing_step(
                view,
                rel@,
                d,
                src,
                demangle_names,
                colored,
                hyperlink,
                inst,
                c0 as nat,
                l0,
            );
            let prev = listing_upto(
                view,
                rel@,
                d,
                src,
                demangle_names,
                colored,
                hyperlink,
                insts@,
                k as nat,
            );
            assert(insts@[k as int] == *inst);
            assert(listing_upto(
                view,
                rel@,
                d,
                src,
                demangle_names,
                colored,
                hyperlink,
                insts@,
                (k + 1) as nat,
            ) == (st.0, st.1, prev.2 + st.2));
            assert(out@ =~= head + (prev.2 + st.2));
        }
        k = k + 1;
    }
    out
}

/// Source ranges sorted by start address, ranges with equal starts in their
/// given order.
pub fn sort_source_lines(lines: &Vec<SourceLine>) -> (r: Vec<SourceLine>)
    ensures
        r@.len() == lines@.len(),
        forall|i: int, j: int| 0 <= i < j < r@.len() ==> r@[i].start <= r@[j].start,
        exists|perm: Seq<usize>|
            is_permutation(perm, lines@.len()) && (forall|k: int|
                0 <= k < perm.len() ==> r@[k] == lines@[#[trigger] perm[k] as int]) && (forall|
                i: int,
                j: int,
            |
                0 <= i < j < r@.len() && r@[i].start == r@[j].start ==> perm[i] < perm[j]),
{
    let n = lines.len();
    let mut keys: Vec<(u64, usize)> = Vec::new();
    let mut i: usize = 0;
    while i < n
        invariant
            n == lines@.len(),
            i <= n,
            keys@.len() == i,
            forall|m: int| 0 <= m < i ==> keys@[m] == (lines@[m].start, m as usize),
        decreases n - i,
    {
        keys.push((lines[i].start, i));
        i = i + 1;
    }
    assert(keys@.no_duplicates()) by {
        assert forall|a: int, b: int|
            0 <= a < keys@.len() && 0 <= b < keys@.len() && a != b implies keys@[a]
            != keys@[b] by {
            assert(keys@[a].1 == a && keys@[b].1 == b);
        }
    }
    let ghost before = keys@;
    sort_distinct_pairs(&mut keys);
    assert forall|k: int| 0 <= k < keys@.len() implies keys@[k].1 < n && keys@[k].0
        == lines@[keys@[k].1 as int].start by {
        assert(keys@.contains(keys@[k]));
        assert(before.contains(keys@[k]));
    }
    let mut out: Vec<SourceLine> = Vec::new();
    let mut k: usize = 0;
    while k < keys.len()
        invariant
            n == lines@.len(),
            k <= keys@.len(),
            keys@.len() == n,
            out@.len() == k,
            forall|m: int|
                0 <= m < keys@.len() ==> keys@[m].1 < n && keys@[m].0 == lines@[keys@[m].1 as int].start,
            forall|m: int| 0 <= m < k ==> out@[m] == lines@[keys@[m].1 as int],
            forall|a: int, b: int|
                0 <= a < b < keys@.len() ==> pair_le(keys@[a], keys@[b]) && keys@[a] != keys@[b],
        decreases keys@.len() - k,
    {
        out.push(lines[keys[k].1]);
        k = k + 1;
    }
    let ghost perm = keys@.map_values(|e: (u64, usize)| e.1);
    assert forall|a: int, b: int|
        0 <= a < perm.len() && 0 <= b < perm.len() && a != b implies perm[a] != perm[b] by {
        if a < b {
            assert(pair_le(keys@[a], keys@[b]));
            assert(keys@[a] != keys@[b]);
        } else {
            assert(pair_le(keys@[b], keys@[a]));
            assert(keys@[b] != keys@[a]);
        }
    }
    assert forall|a: int, b: int| 0 <= a < b < out@.len() implies out@[a].start <= out@[b].start by {
        assert(pair_le(keys@[a], keys@[b]));
    }
    assert forall|a: int, b: int|
        0 <= a < b < out@.len() && out@[a].start == out@[b].start implies perm[a] < perm[b] by {
        assert(pair_le(keys@[a], keys@[b]));
        assert(keys@[a] != keys@[b]);
    }
    assert(is_permutation(perm, lines@.len()));
    out
}

/// Which of an address's inlined frames, innermost first, a byte count is
/// charged to: the one just outside the outermost where there are two or
/// more, else the only one.
pub fn pick_frame(n: usize) -> (r: Option<usize>)
    ensures
        r == if n >= 2 {
            Some((n - 2) as usize)
        } else if n == 1 {
            Some(0usize)
        } else {
            None::<usize>
        },
{
    if n >= 2 {
        Some(n - 2)
    } else if n == 1 {
        Some(0)
    } else {
        None
    }
}

/// The name that bytes with no known function are charged to.
pub open spec fn unknown_name() -> Seq<char> {
    seq!['<', 'u', 'n', 'k', 'n', 'o', 'w', 'n', '>']
}

pub open spec fn sat_add(a: u64, b: u64) -> u64 {
    if a + b > u64::MAX {
        u64::MAX
    } else {
        (a + b) as u64
    }
}

/// Position of `name` among the tallies, if present.
pub open spec fn tally_pos(t: Seq<(Seq<char>, u64)>, name: Seq<char>) -> Option<int> {
    if exists|i: int| 0 <= i < t.len() && t[i].0 == name {
        Some(choose|i: int| 0 <= i < t.len() && t[i].0 == name)
    } else {
        None
    }
}

/// Charges `len` bytes to `name`: onto its tally, or onto a new one at the
/// end.
pub open spec fn charge(t: Seq<(Seq<char>, u64)>, name: Seq<char>, len: u64) -> Seq<(Seq<char>, u64)> {
    match tally_pos(t, name) {
        Some(i) => t.update(i, (name, sat_add(t[i].1, len))),
        None => t.push((name, len)),
    }
}

pub open spec fn unique_names(t: Seq<(Seq<char>, u64)>) -> bool {
    forall|i: int, j: int| 0 <= i < j < t.len() ==> t[i].0 != t[j].0
}

/// Tallies of the first `k` ranges, by the function each is charged to, in
/// order of first appearance.
pub open spec fn tallies(ranges: Seq<SourceLine>, frames: Seq<Option<String>>, k: nat) -> Seq<
    (Seq<char>, u64),
>
    decreases k,
{
    if k == 0 {
        Seq::empty()
    } else {
        let r = ranges[k - 1];
        charge(
            tallies(ranges, frames, (k - 1) as nat),
            match frames[k - 1] {
                Some(n) => n@,
                None => unknown_name(),
            },
            if r.end >= r.start {
                (r.end - r.start) as u64
            } else {
                0
            },
        )
    }
}

/// One line of the table of bytes per function.
pub open spec fn top_line(t: (Seq<char>, u64), demangle: bool) -> Seq<u8> {
    pad_left(dec_digits(t.1 as nat), 10) + seq![9u8] + encode_utf8(shown_name(demangle, t.0))
        + seq![10u8]
}

pub open spec fn top_lines(t: Seq<(Seq<char>, u64)>, demangle: bool) -> Seq<u8>
    decreases t.len(),
{
    if t.len() == 0 {
        Seq::empty()
    } else {
        top_lines(t.drop_last(), demangle) + top_line(t.last(), demangle)
    }
}

/// The tallies by ascending byte count, equal counts in order of first
/// appearance.
pub open spec fn by_count(t: Seq<(Seq<char>, u64)>, order: Seq<usize>) -> bool {
    &&& is_permutation(order, t.len())
    &&& forall|a: int, b: int|
        0 <= a < b < order.len() ==> t[order[a] as int].1 < t[order[b] as int].1 || (t[order[
            a] as int].1 == t[order[b] as int].1 && order[a] < order[b])
}

#[verifier::external_type_specification]
#[verifier::external_body]
#[verifier::reject_recursive_types(K)]
#[verifier::reject_recursive_types(V)]
#[verifier::reject_recursive_types(S)]
pub struct ExIndexMap<K, V, S>(indexmap::IndexMap<K, V, S>);

/// The entries of an insertion-ordered map from names to byte counts, in
/// order.
pub uninterp spec fn tally_entries(m: indexmap::IndexMap<String, u64>) -> Seq<(Seq<char>, u64)>;

/// Relies on `IndexMap::new`: an empty map.
#[verifier::external_body]
fn tally_new() -> (r: indexmap::IndexMap<String, u64>)
    ensures
        tally_entries(r) == Seq::<(Seq<char>, u64)>::empty(),
{
    indexmap::IndexMap::new()
}

/// Relies on `IndexMap::get`: the value stored under an equal key, if any.
#[verifier::external_body]
fn tally_get(m: &indexmap::IndexMap<String, u64>, k: &String) -> (r: Option<u64>)
    ensures
        match tally_pos(tally_entries(*m), k@) {
            Some(i) => r == Some(tally_entries(*m)[i].1),
            None => r is None,
        },
{
    m.get(k).copied()
}

/// Relies on `IndexMap::insert`: a key already present keeps its place and
/// takes the new value; a new key goes last. Keys stay unique.
#[verifier::external_body]
fn tally_insert(m: &mut indexmap::IndexMap<String, u64>, k: String, v: u64)
    requires
        unique_names(tally_entries(*old(m))),
    ensures
        unique_names(tally_entries(*final(m))),
        tally_entries(*final(m)) == match tally_pos(tally_entries(*old(m)), k@) {
            Some(i) => tally_entries(*old(m)).update(i, (k@, v)),
            None => tally_entries(*old(m)).push((k@, v)),
        },
{
    m.insert(k, v);
}

/// Relies on `IndexMap`'s `IntoIterator`: the entries in order.
#[verifier::external_body]
fn tally_items(m: indexmap::IndexMap<String, u64>) -> (r: Vec<(String, u64)>)
    ensures
        r@.len() == tally_entries(m).len(),
        forall|i: int|
            0 <= i < r@.len() ==> (#[trigger] r@[i].0@, r@[i].1) == tally_entries(m)[i],
{
    m.into_iter().collect()
}

/// Prints the table of bytes per function: each range of code is charged
/// to the function `frames` names for it, or to `<unknown>`, and the
/// functions are listed by ascending byte count.
pub fn dwarf_top(ranges: &Vec<SourceLine>, frames: &Vec<Option<String>>, demangle_names: bool) -> (r:
    Vec<u8>)
    requires
        frames@.len() == ranges@.len(),
    ensures
        exists|order: Seq<usize>|
            #[trigger] by_count(tallies(ranges@, frames@, ranges@.len()), order) && r@ == top_lines(
                order.map_values(|i: usize| tallies(ranges@, frames@, ranges@.len())[i as int]),
                demangle_names,
            ),
{
    let mut m = tally_new();
    let mut k: usize = 0;
    while k < ranges.len()
        invariant
            frames@.len() == ranges@.len(),
            k <= ranges@.len(),
            tally_entries(m) == tallies(ranges@, frames@, k as nat),
            unique_names(tally_entries(m)),
        decreases ranges@.len() - k,
    {
        let r = ranges[k];
        let len: u64 = if r.end >= r.start {
            r.end - r.start
        } else {
            0
        };
        let name = match &frames[k] {
            Some(n) => n.clone(),
            None => {
                let u = String::from_str("<unknown>");
                proof {
                    reveal_strlit("<unknown>");
                    assert(u@ =~= unknown_name());
                }
                u
            },
        };
        let v = match tally_get(&m, &name) {
            Some(c) => c.saturating_add(len),
            None => len,
        };
        proof {
            let t = tally_entries(m);
            if let Some(i) = tally_pos(t, name@) {
                assert(0 <= i < t.len() && t[i].0 == name@);
            }
        }
        tally_insert(&mut m, name, v);
        k = k + 1;
    }
    let ghost t = tally_entries(m);
    let items = tally_items(m);
    let ghost iv = items@;
    let n = items.len();
    let mut keys: Vec<(u64, usize)> = Vec::new();
    let mut i: usize = 0;
    while i < n
        invariant
            n == items@.len(),
            i <= n,
            keys@.len() == i,
            forall|m: int| 0 <= m < i ==> keys@[m] == (items@[m].1, m as usize),
        decreases n - i,
    {
        keys.push((items[i].1, i));
        i = i + 1;
    }
    assert(keys@.no_duplicates()) by {
        assert forall|a: int, b: int|
            0 <= a < keys@.len() && 0 <= b < keys@.len() && a != b implies keys@[a]
            != keys@[b] by {
            assert(keys@[a].1 == a && keys@[b].1 == b);
        }
    }
    let ghost before = keys@;
    sort_distinct_pairs(&mut keys);
    assert forall|m: int| 0 <= m < keys@.len() implies keys@[m].1 < n && keys@[m].0
        == items@[keys@[m].1 as int].1 by {
        assert(keys@.contains(keys@[m]));
        assert(before.contains(keys@[m]));
    }
    let mut out: Vec<u8> = Vec::new();
    let mut k: usize = 0;
    while k < keys.len()
        invariant
            n == items@.len(),
            t.len() == n,
            forall|m: int| 0 <= m < n ==> (#[trigger] items@[m].0@, items@[m].1) == t[m],
            k <= keys@.len(),
            keys@.len() == n,
            forall|m: int|
                0 <= m < keys@.len() ==> keys@[m].1 < n && keys@[m].0 == items@[keys@[m].1 as int].1,
            forall|a: int, b: int|
                0 <= a < b < keys@.len() ==> pair_le(keys@[a], keys@[b]) && keys@[a] != keys@[b],
            out@ == top_lines(
                keys@.subrange(0, k as int).map_values(|e: (u64, usize)| t[e.1 as int]),
                demangle_names,
            ),
        decreases keys@.len() - k,
    {
        let idx = keys[k].1;
        assert((items@[idx as int].0@, items@[idx as int].1) == t[idx as int]);
        push_dec_padded(&mut out, items[idx].1 as u128, 10);
        out.push(9);
        let shown = if demangle_names {
            demangle(items[idx].0.as_str())
        } else {
            items[idx].0.clone()
        };
        push_all(&mut out, shown.as_str().as_bytes());
        out.push(10);
        proof {
            let s1 = keys@.subrange(0, k + 1).map_values(|e: (u64, usize)| t[e.1 as int]);
            assert(s1.drop_last() =~= keys@.subrange(0, k as int).map_values(
                |e: (u64, usize)| t[e.1 as int],
            ));
            assert(s1.last() == t[idx as int]);
        }
        k = k + 1;
        assert(out@ =~= top_lines(
            keys@.subrange(0, k as int).map_values(|e: (u64, usize)| t[e.1 as int]),
            demangle_names,
        ));
    }
    let ghost order = keys@.map_values(|e: (u64, usize)| e.1);
    proof {
        assert(keys@.subrange(0, keys@.len() as int) =~= keys@);
        assert(order.map_values(|i: usize| t[i as int]) =~= keys@.map_values(
            |e: (u64, usize)| t[e.1 as int],
        ));
        assert forall|a: int, b: int|
            0 <= a < order.len() && 0 <= b < order.len() && a != b implies order[a]
            != order[b] by {
            if a < b {
                assert(pair_le(keys@[a], keys@[b]));
                assert(keys@[a] != keys@[b]);
            } else {
                assert(pair_le(keys@[b], keys@[a]));
                assert(keys@[b] != keys@[a]);
            }
        }
        assert forall|a: int, b: int| 0 <= a < b < order.len() implies t[order[a] as int].1 < t[order[
            b] as int].1 || (t[order[a] as int].1 == t[order[b] as int].1 && order[a] < order[b]) by {
            let x = keys@[a].1 as int;
            let y = keys@[b].1 as int;
            assert((items@[x].0@, items@[x].1) == t[x]);
            assert((items@[y].0@, items@[y].1) == t[y]);
            assert(pair_le(keys@[a], keys@[b]));
            assert(keys@[a] != keys@[b]);
        }
        assert(by_count(t, order));
    }
    out
}

/// `show --no-symbol` at the last byte of a section, with the default
/// length and an alignment of at most sixteen, shows one to sixteen bytes
/// that end with the section's last byte: a single dump line.
pub proof fn lemma_last_byte_window(
    view: &Explorer,
    a: u64,
    align: Option<u64>,
    data_len: nat,
    sp: int,
)
    requires
        section_holding(view, a) == Some(sp),
        view.sections@[sp].size == data_len,
        a + 1 == view.sections@[sp].end(),
        (match align {
            Some(x) => x,
            None => view.sections@[sp].align,
        }) <= 16,
    ensures
        section_window(view, a, align, None, data_len) is Some,
        section_window(view, a, align, None, data_len)->Some_0.0 == sp,
        section_window(view, a, align, None, data_len)->Some_0.3 == data_len,
        1 <= section_window(view, a, align, None, data_len)->Some_0.3 - section_window(
            view,
            a,
            align,
            None,
            data_len,
        )->Some_0.2 <= 16,
        line_count(
            (section_window(view, a, align, None, data_len)->Some_0.3 - section_window(
                view,
                a,
                align,
                None,
                data_len,
            )->Some_0.2) as nat,
        ) == 1,
{
    let sec = view.sections@[sp];
    let al = match align {
        Some(x) => x,
        None => sec.align,
    };
    if al > 0 {
        let r = a % al;
        assert(r < al) by (nonlinear_arith)
            requires
                al > 0,
                r == a % al,
        ;
        assert(r <= a) by (nonlinear_arith)
            requires
                al > 0,
                r == a % al,
        ;
    }
    let b = align_down(a, al, sec.address);
    assert(sec.address <= b <= a);
    assert(a + 1 - b <= 16);
}

} // verus!
