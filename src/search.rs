use vstd::prelude::*;
use vstd::string::StringSliceAdditionalSpecFns;
use crate::error::ErrorKind;
use crate::explorer::{kind_code, pair_le, size_spec, sort_distinct_pairs, symlist_sorted};
use crate::model::{DynReloc, Explorer, Section, SectionKind, SymbolKind, SymbolSection};
use crate::disasm::{target_spec as operand_target, Disassembler, Inst};
use crate::resolve::{query_symbol_by_addr, relocs_sorted, resolve_spec};
use crate::pattern::{
    bytes_as_text, bytes_regex_matches, demangle, demangled, lossy_text, regex_accepts, regex_finds,
    BytesPattern, Pattern,
};
use crate::text::{addr_text, dec_digits, pad_left, push_addr, push_all, push_dec_padded};

verus! {

/// Options of the `search` query.
pub struct SearchCommand {
    /// Pattern for names or data, or the callee address for `callsite`.
    pub keyword: String,
    pub demangle: bool,
    /// Search section bytes instead of symbol names.
    pub data: bool,
    /// Search for the callers of the symbol at an address.
    pub callsite: bool,
    /// Pattern that a symbol's section name must match.
    pub filter_section: Option<String>,
    pub size: bool,
    pub sort_size: bool,
    pub sort_name: bool,
    pub only_duplicate: bool,
}

/// Which scan a `search` runs.
#[derive(Clone, Copy, Debug, PartialEq, Eq, Structural)]
pub enum SearchMode {
    BySymbol,
    ByCall,
    ByData,
}

/// Picks the scan from the `callsite` and `data` flags, which exclude each
/// other.
pub fn search_mode(callsite: bool, data: bool) -> (r: Result<SearchMode, ErrorKind>)
    ensures
        r == (if callsite && data {
            Err(ErrorKind::MutuallyExclusive)
        } else if callsite {
            Ok(SearchMode::ByCall)
        } else if data {
            Ok(SearchMode::ByData)
        } else {
            Ok(SearchMode::BySymbol)
        }),
{
    match (callsite, data) {
        (false, false) => Ok(SearchMode::BySymbol),
        (true, false) => Ok(SearchMode::ByCall),
        (false, true) => Ok(SearchMode::ByData),
        (true, true) => Err(ErrorKind::MutuallyExclusive),
    }
}

/// One printed symbol: address, optional size column, kind letter, name.
pub open spec fn symbol_line(addr: u64, size: Option<u64>, kind: char, name: Seq<u8>) -> Seq<u8> {
    addr_text(addr) + match size {
        Some(s) => seq![32u8] + pad_left(dec_digits(s as nat), 10),
        None => Seq::empty(),
    } + seq![32u8, kind as u8, 32u8] + name + seq![10u8]
}

/// Appends one symbol line.
pub fn push_symbol_line(out: &mut Vec<u8>, addr: u64, size: Option<u64>, kind: char, name: &[u8])
    ensures
        final(out)@ == old(out)@ + symbol_line(addr, size, kind, name@),
{
    push_addr(out, addr);
    match size {
        Some(s) => {
            out.push(32);
            push_dec_padded(out, s as u128, 10);
        },
        None => {},
    }
    out.push(32);
    out.push(kind as u8);
    out.push(32);
    push_all(out, name);
    out.push(10);
    assert(final(out)@ =~= old(out)@ + symbol_line(addr, size, kind, name@));
}

/// A matching symbol: its position in the symbol table, the name as shown
/// (UTF-8 bytes), and its size (zero where sizes were not asked for).
pub struct Hit {
    pub pos: usize,
    pub name: Vec<u8>,
    pub size: u64,
}

impl View for Hit {
    type V = (usize, Seq<u8>, u64);

    open spec fn view(&self) -> (usize, Seq<u8>, u64) {
        (self.pos, self.name@, self.size)
    }
}

pub open spec fn hits_view(hs: Seq<Hit>) -> Seq<(usize, Seq<u8>, u64)> {
    hs.map_values(|h: Hit| h@)
}

/// The bytes of a name before its first `.`.
pub open spec fn base_name(n: Seq<u8>) -> Seq<u8>
    decreases n.len(),
{
    if n.len() == 0 || n[0] == 46 {
        Seq::empty()
    } else {
        seq![n[0]] + base_name(n.drop_first())
    }
}

/// The hits whose base name already occurred earlier in `hs`.
pub open spec fn repeats(hs: Seq<(usize, Seq<u8>, u64)>) -> Seq<(usize, Seq<u8>, u64)>
    decreases hs.len(),
{
    if hs.len() == 0 {
        Seq::empty()
    } else {
        let p = repeats(hs.drop_last());
        if exists|j: int| 0 <= j < hs.len() - 1 && base_name(hs[j].1) == base_name(hs.last().1) {
            p.push(hs.last())
        } else {
            p
        }
    }
}

pub open spec fn line_of(view: &Explorer, h: (usize, Seq<u8>, u64), show_size: bool) -> Seq<u8> {
    symbol_line(
        view.sym_addr(h.0 as int),
        if show_size {
            Some(h.2)
        } else {
            None
        },
        kind_code(view, &view.symbols@[h.0 as int]),
        h.1,
    )
}

pub open spec fn lines_of(view: &Explorer, hs: Seq<(usize, Seq<u8>, u64)>, show_size: bool) -> Seq<
    u8,
>
    decreases hs.len(),
{
    if hs.len() == 0 {
        Seq::empty()
    } else {
        lines_of(view, hs.drop_last(), show_size) + line_of(view, hs.last(), show_size)
    }
}

pub open spec fn size_sum(hs: Seq<(usize, Seq<u8>, u64)>) -> nat
    decreases hs.len(),
{
    if hs.len() == 0 {
        0
    } else {
        size_sum(hs.drop_last()) + hs.last().2 as nat
    }
}

/// `sum: ` and the total, on a line of its own.
pub open spec fn sum_line(total: nat) -> Seq<u8> {
    seq![115u8, 117u8, 109u8, 58u8, 32u8] + dec_digits(total) + seq![10u8]
}

/// The printed result of a symbol search over hits in the given order:
/// with `only_duplicate`, only the repeats of a base name; with
/// `show_size`, a size column; with `total`, a closing line with the sum of
/// the sizes printed.
pub open spec fn report(
    view: &Explorer,
    hs: Seq<(usize, Seq<u8>, u64)>,
    only_duplicate: bool,
    show_size: bool,
    total: bool,
) -> Seq<u8> {
    let sel = if only_duplicate {
        repeats(hs)
    } else {
        hs
    };
    lines_of(view, sel, show_size) + if total {
        sum_line(size_sum(sel))
    } else {
        Seq::empty()
    }
}

/// `order` lists each index below `n` exactly once.
pub open spec fn is_permutation(order: Seq<usize>, n: nat) -> bool {
    &&& order.len() == n
    &&& order.no_duplicates()
    &&& forall|k: int| 0 <= k < order.len() ==> order[k] < n
}

pub open spec fn reorder<T>(hs: Seq<T>, order: Seq<usize>) -> Seq<T> {
    order.map_values(|i: usize| hs[i as int])
}

/// Byte-wise lexicographic order, as std orders strings.
pub open spec fn bytes_le(a: Seq<u8>, b: Seq<u8>) -> bool
    decreases a.len(),
{
    if a.len() == 0 {
        true
    } else if b.len() == 0 {
        false
    } else if a[0] != b[0] {
        a[0] < b[0]
    } else {
        bytes_le(a.drop_first(), b.drop_first())
    }
}

/// `x` may come before `y` in the order that the sort options ask for.
pub open spec fn in_order(
    x: (usize, Seq<u8>, u64),
    y: (usize, Seq<u8>, u64),
    sort_size: bool,
    sort_name: bool,
) -> bool {
    &&& (sort_size && !sort_name) ==> x.2 <= y.2
    &&& sort_name ==> bytes_le(x.1, y.1)
    &&& (sort_size && sort_name && x.1 == y.1) ==> x.2 <= y.2
}

/// Hits in the order that the sort options ask for.
pub open spec fn sorted_for(hs: Seq<(usize, Seq<u8>, u64)>, sort_size: bool, sort_name: bool) -> bool {
    forall|i: int, j: int|
        0 <= i < j < hs.len() ==> #[trigger] in_order(hs[i], hs[j], sort_size, sort_name)
}

proof fn lemma_repeats_step(hs: Seq<(usize, Seq<u8>, u64)>, k: int)
    requires
        0 <= k < hs.len(),
    ensures
        repeats(hs.subrange(0, k + 1)) == if base_before(hs, k, base_name(hs[k].1)) {
            repeats(hs.subrange(0, k)).push(hs[k])
        } else {
            repeats(hs.subrange(0, k))
        },
{
    let t = hs.subrange(0, k + 1);
    assert(t.drop_last() =~= hs.subrange(0, k));
    if base_before(hs, k, base_name(hs[k].1)) {
        let j = choose|j: int| 0 <= j < k && base_name(hs[j].1) == base_name(hs[k].1);
        assert(t[j] == hs[j]);
    } else {
        assert forall|j: int| 0 <= j < k implies base_name(t[j].1) != base_name(t.last().1) by {
            assert(t[j] == hs[j]);
            if base_name(t[j].1) == base_name(t.last().1) {
                assert(base_before(hs, k, base_name(hs[k].1)));
            }
        }
    }
}

pub open spec fn holds_bytes(seen: Seq<Vec<u8>>, c: Seq<u8>) -> bool {
    exists|j: int| 0 <= j < seen.len() && seen[j]@ == c
}

pub open spec fn base_before(hs: Seq<(usize, Seq<u8>, u64)>, k: int, c: Seq<u8>) -> bool {
    exists|j: int| 0 <= j < k && base_name(hs[j].1) == c
}

/// The base name of `n`.
fn base_of(n: &[u8]) -> (r: Vec<u8>)
    ensures
        r@ == base_name(n@),
{
    let mut i: usize = 0;
    while i < n.len() && n[i] != 46
        invariant
            i <= n@.len(),
            forall|m: int| 0 <= m < i ==> n@[m] != 46,
        decreases n@.len() - i,
    {
        i = i + 1;
    }
    let r = vstd::slice::slice_to_vec(vstd::slice::slice_subrange(n, 0, i));
    proof {
        lemma_base_name_prefix(n@, i as int);
    }
    r
}

proof fn lemma_base_name_prefix(n: Seq<u8>, i: int)
    requires
        0 <= i <= n.len(),
        forall|m: int| 0 <= m < i ==> n[m] != 46,
        i == n.len() || n[i] == 46,
    ensures
        base_name(n) == n.subrange(0, i),
    decreases i,
{
    if i > 0 {
        lemma_base_name_prefix(n.drop_first(), i - 1);
        assert(seq![n[0]] + n.drop_first().subrange(0, i - 1) =~= n.subrange(0, i));
    } else {
        assert(n.subrange(0, 0) =~= Seq::<u8>::empty());
    }
}

fn same_bytes(x: &[u8], y: &[u8]) -> (r: bool)
    ensures
        r == (x@ == y@),
{
    if x.len() != y.len() {
        return false;
    }
    let mut i: usize = 0;
    while i < x.len()
        invariant
            x@.len() == y@.len(),
            i <= x@.len(),
            forall|m: int| 0 <= m < i ==> x@[m] == y@[m],
        decreases x@.len() - i,
    {
        if x[i] != y[i] {
            return false;
        }
        i = i + 1;
    }
    assert(x@ =~= y@);
    true
}

fn contains_bytes(seen: &Vec<Vec<u8>>, b: &Vec<u8>) -> (r: bool)
    ensures
        r == holds_bytes(seen@, b@),
{
    let mut j: usize = 0;
    while j < seen.len()
        invariant
            j <= seen@.len(),
            forall|m: int| 0 <= m < j ==> seen@[m]@ != b@,
        decreases seen@.len() - j,
    {
        if same_bytes(seen[j].as_slice(), b.as_slice()) {
            return true;
        }
        j = j + 1;
    }
    false
}

/// Prints hits in the order `order` gives, as `report` states.
pub fn render_hits(
    view: &Explorer,
    hits: &Vec<Hit>,
    order: &Vec<usize>,
    only_duplicate: bool,
    show_size: bool,
    total: bool,
) -> (r: Vec<u8>)
    requires
        forall|k: int| 0 <= k < order@.len() ==> order@[k] < hits@.len(),
        forall|i: int| 0 <= i < hits@.len() ==> hits@[i].pos < view.symbols@.len(),
    ensures
        r@ == report(view, reorder(hits_view(hits@), order@), only_duplicate, show_size, total),
{
    let ghost hs = reorder(hits_view(hits@), order@);
    let mut out: Vec<u8> = Vec::new();
    let mut seen: Vec<Vec<u8>> = Vec::new();
    let mut sum: u128 = 0;
    let mut k: usize = 0;
    while k < order.len()
        invariant
            forall|m: int| 0 <= m < order@.len() ==> order@[m] < hits@.len(),
            forall|i: int| 0 <= i < hits@.len() ==> hits@[i].pos < view.symbols@.len(),
            hs == reorder(hits_view(hits@), order@),
            k <= order@.len(),
            only_duplicate ==> forall|b: Seq<u8>|
                #[trigger] holds_bytes(seen@, b) <==> #[trigger] base_before(hs, k as int, b),
            ({
                let sel = if only_duplicate {
                    repeats(hs.subrange(0, k as int))
                } else {
                    hs.subrange(0, k as int)
                };
                out@ == lines_of(view, sel, show_size) && sum as nat == size_sum(sel) && sel.len()
                    <= k
            }),
            sum <= k * 0x1_0000_0000_0000_0000,
        decreases order@.len() - k,
    {
        let h = &hits[order[k]];
        let ghost sel0 = if only_duplicate {
            repeats(hs.subrange(0, k as int))
        } else {
            hs.subrange(0, k as int)
        };
        let ghost seen0 = seen@;
        let mut keep = true;
        if only_duplicate {
            let b = base_of(h.name.as_slice());
            proof {
                lemma_repeats_step(hs, k as int);
                assert(hs[k as int] == hits@[order@[k as int] as int]@);
            }
            if contains_bytes(&seen, &b) {
                keep = true;
            } else {
                keep = false;
                seen.push(b);
            }
            proof {
                let bk = base_name(hs[k as int].1);
                assert(b@ == bk);
                assert(keep == holds_bytes(seen0, bk));
                assert(keep == base_before(hs, k as int, bk));
                assert forall|c: Seq<u8>|
                    #[trigger] holds_bytes(seen@, c) <==> #[trigger] base_before(hs, k + 1, c) by {
                    assert(holds_bytes(seen0, c) == base_before(hs, k as int, c));
                    if base_before(hs, k + 1, c) {
                        let j = choose|j: int| 0 <= j < k + 1 && base_name(hs[j].1) == c;
                        if j < k {
                            assert(base_before(hs, k as int, c));
                            let w = choose|w: int| 0 <= w < seen0.len() && seen0[w]@ == c;
                            assert(seen@[w] == seen0[w]);
                        } else if keep {
                            assert(base_before(hs, k as int, c));
                            let w = choose|w: int| 0 <= w < seen0.len() && seen0[w]@ == c;
                            assert(seen@[w] == seen0[w]);
                        } else {
                            assert(seen@[seen0.len() as int]@ == c);
                        }
                    }
                    if holds_bytes(seen@, c) {
                        let w = choose|w: int| 0 <= w < seen@.len() && seen@[w]@ == c;
                        if w < seen0.len() {
                            assert(seen0[w]@ == c);
                            assert(holds_bytes(seen0, c));
                            let j = choose|j: int| 0 <= j < k && base_name(hs[j].1) == c;
                        } else {
                            assert(base_name(hs[k as int].1) == c);
                        }
                    }
                }
            }
        }
        proof {
            assert(hs[k as int] == hits@[order@[k as int] as int]@);
        }
        if keep {
            sum = sum + h.size as u128;
            push_symbol_line(
                &mut out,
                view.symbols[h.pos].address,
                if show_size {
                    Some(h.size)
                } else {
                    None
                },
                view.symbol_kind(h.pos),
                h.name.as_slice(),
            );
        }
        proof {
            let sel1 = if only_duplicate {
                repeats(hs.subrange(0, k + 1))
            } else {
                hs.subrange(0, k + 1)
            };
            if !only_duplicate {
                assert(sel1 =~= sel0.push(hs[k as int]));
            }
            if keep {
                assert(sel1 == sel0.push(hs[k as int]));
                assert(sel1.drop_last() =~= sel0);
            } else {
                assert(sel1 == sel0);
            }
        }
        k = k + 1;
    }
    assert(hs.subrange(0, order@.len() as int) =~= hs);
    if total {
        out.push(115);
        out.push(117);
        out.push(109);
        out.push(58);
        out.push(32);
        crate::text::push_dec(&mut out, sum);
        out.push(10);
    }
    proof {
        let sel = if only_duplicate {
            repeats(hs)
        } else {
            hs
        };
        assert(out@ =~= report(view, hs, only_duplicate, show_size, total));
    }
    out
}

pub open spec fn pattern_source(p: Option<Pattern>) -> Option<Seq<char>> {
    match p {
        Some(q) => Some(q.source()),
        None => None,
    }
}

/// Whether a symbol passes the section filter: symbols outside any section
/// fail it, a section whose name is unknown passes, and a section that
/// cannot be found is an error.
pub open spec fn section_gate(view: &Explorer, filter: Option<Seq<char>>, sec: SymbolSection) -> Result<
    bool,
    ErrorKind,
> {
    match filter {
        None => Ok(true),
        Some(f) => match sec {
            SymbolSection::Section(i) => match view.section_pos(i) {
                Some(k) => Ok(
                    !(view.sections@[k].name is Some && !regex_finds(
                        f,
                        view.sections@[k].name->Some_0@,
                    )),
                ),
                None => Err(ErrorKind::NotFound),
            },
            _ => Ok(false),
        },
    }
}

/// The name as shown: demangled on request.
pub open spec fn shown_name(demangle: bool, n: Seq<char>) -> Seq<char> {
    if demangle {
        demangled(n)
    } else {
        n
    }
}

/// What the name scan makes of the symbol at position `pos`: no hit, a hit,
/// or an error.
pub open spec fn name_step(
    view: &Explorer,
    sl: Seq<usize>,
    re: Seq<char>,
    filter: Option<Seq<char>>,
    demangle: bool,
    want_size: bool,
    pos: usize,
) -> Result<Option<(usize, Seq<u8>, u64)>, ErrorKind> {
    let sym = view.symbols@[pos as int];
    match sym.name {
        None => Ok(None),
        Some(n) => match section_gate(view, filter, sym.section) {
            Err(e) => Err(e),
            Ok(false) => Ok(None),
            Ok(true) => {
                let dn = shown_name(demangle, n@);
                if !regex_finds(re, dn) {
                    Ok(None)
                } else if want_size {
                    match size_spec(view, sl, &sym) {
                        Ok(z) => Ok(Some((pos, vstd::utf8::encode_utf8(dn), z))),
                        Err(e) => Err(e),
                    }
                } else {
                    Ok(Some((pos, vstd::utf8::encode_utf8(dn), 0)))
                }
            },
        },
    }
}

/// The hits among the first `k` entries of the symbol list, in list order.
pub open spec fn hits_upto(
    view: &Explorer,
    sl: Seq<usize>,
    re: Seq<char>,
    filter: Option<Seq<char>>,
    demangle: bool,
    want_size: bool,
    k: nat,
) -> Result<Seq<(usize, Seq<u8>, u64)>, ErrorKind>
    decreases k,
{
    if k == 0 {
        Ok(Seq::empty())
    } else {
        match hits_upto(view, sl, re, filter, demangle, want_size, (k - 1) as nat) {
            Err(e) => Err(e),
            Ok(h) => match name_step(view, sl, re, filter, demangle, want_size, sl[k - 1]) {
                Err(e) => Err(e),
                Ok(None) => Ok(h),
                Ok(Some(x)) => Ok(h.push(x)),
            },
        }
    }
}

/// Positions of the unnamed symbols among the first `k` list entries.
pub open spec fn unnamed_upto(view: &Explorer, sl: Seq<usize>, k: nat) -> Seq<usize>
    decreases k,
{
    if k == 0 {
        Seq::empty()
    } else if view.symbols@[sl[k - 1] as int].name is None {
        unnamed_upto(view, sl, (k - 1) as nat).push(sl[k - 1])
    } else {
        unnamed_upto(view, sl, (k - 1) as nat)
    }
}

fn section_passes(view: &Explorer, filter: &Option<Pattern>, sec: SymbolSection) -> (r: Result<
    bool,
    ErrorKind,
>)
    ensures
        r == section_gate(view, pattern_source(*filter), sec),
{
    match filter {
        None => Ok(true),
        Some(f) => match sec {
            SymbolSection::Section(i) => match view.find_section(i) {
                Some(k) => match &view.sections[k].name {
                    Some(n) => Ok(f.is_match(n.as_str())),
                    None => Ok(true),
                },
                None => Err(ErrorKind::NotFound),
            },
            _ => Ok(false),
        },
    }
}

/// The name scan's verdict on the symbol at position `pos`.
pub fn name_hit(
    view: &Explorer,
    sl: &[usize],
    re: &Pattern,
    filter: &Option<Pattern>,
    demangle_names: bool,
    want_size: bool,
    pos: usize,
) -> (r: Result<Option<Hit>, ErrorKind>)
    requires
        pos < view.symbols@.len(),
        symlist_sorted(view, sl@),
    ensures
        match r {
            Ok(Some(h)) => name_step(
                view,
                sl@,
                re.source(),
                pattern_source(*filter),
                demangle_names,
                want_size,
                pos,
            ) == Ok::<_, ErrorKind>(Some(h@)),
            Ok(None) => name_step(
                view,
                sl@,
                re.source(),
                pattern_source(*filter),
                demangle_names,
                want_size,
                pos,
            ) == Ok::<Option<(usize, Seq<u8>, u64)>, ErrorKind>(None),
            Err(e) => name_step(
                view,
                sl@,
                re.source(),
                pattern_source(*filter),
                demangle_names,
                want_size,
                pos,
            ) == Err::<Option<(usize, Seq<u8>, u64)>, ErrorKind>(e),
        },
{
    let sym = &view.symbols[pos];
    let n = match &sym.name {
        Some(n) => n,
        None => {
            return Ok(None);
        },
    };
    match section_passes(view, filter, sym.section) {
        Err(e) => {
            return Err(e);
        },
        Ok(false) => {
            return Ok(None);
        },
        Ok(true) => {},
    }
    let dn = if demangle_names {
        demangle(n.as_str())
    } else {
        n.clone()
    };
    if !re.is_match(dn.as_str()) {
        return Ok(None);
    }
    let name = vstd::slice::slice_to_vec(dn.as_str().as_bytes());
    if want_size {
        match view.symbol_size(sl, pos) {
            Ok(z) => Ok(Some(Hit { pos, name, size: z })),
            Err(e) => Err(e),
        }
    } else {
        Ok(Some(Hit { pos, name, size: 0 }))
    }
}

proof fn lemma_hits_error_stays(
    view: &Explorer,
    sl: Seq<usize>,
    re: Seq<char>,
    filter: Option<Seq<char>>,
    demangle: bool,
    want_size: bool,
    k: nat,
    m: nat,
)
    requires
        k <= m,
        hits_upto(view, sl, re, filter, demangle, want_size, k) is Err,
    ensures
        hits_upto(view, sl, re, filter, demangle, want_size, m) == hits_upto(
            view,
            sl,
            re,
            filter,
            demangle,
            want_size,
            k,
        ),
    decreases m - k,
{
    if k < m {
        lemma_hits_error_stays(view, sl, re, filter, demangle, want_size, k, (m - 1) as nat);
    }
}

/// Runs the name scan over the whole symbol list: the hits in list order,
/// and the positions of the unnamed symbols that were skipped.
pub fn collect_name_hits(
    view: &Explorer,
    sl: &[usize],
    re: &Pattern,
    filter: &Option<Pattern>,
    demangle_names: bool,
    want_size: bool,
) -> (r: Result<(Vec<Hit>, Vec<usize>), ErrorKind>)
    requires
        symlist_sorted(view, sl@),
    ensures
        match r {
            Ok((h, skipped)) => hits_upto(
                view,
                sl@,
                re.source(),
                pattern_source(*filter),
                demangle_names,
                want_size,
                sl@.len(),
            ) == Ok::<_, ErrorKind>(hits_view(h@)) && skipped@ == unnamed_upto(view, sl@, sl@.len())
                && forall|i: int| 0 <= i < h@.len() ==> h@[i].pos < view.symbols@.len(),
            Err(e) => hits_upto(
                view,
                sl@,
                re.source(),
                pattern_source(*filter),
                demangle_names,
                want_size,
                sl@.len(),
            ) == Err::<Seq<(usize, Seq<u8>, u64)>, ErrorKind>(e),
        },
{
    let ghost rs = re.source();
    let ghost fs = pattern_source(*filter);
    let mut hits: Vec<Hit> = Vec::new();
    let mut skipped: Vec<usize> = Vec::new();
    let mut k: usize = 0;
    assert(hits_view(hits@) =~= Seq::<(usize, Seq<u8>, u64)>::empty());
    assert(skipped@ =~= Seq::<usize>::empty());
    while k < sl.len()
        invariant
            symlist_sorted(view, sl@),
            k <= sl@.len(),
            rs == re.source(),
            fs == pattern_source(*filter),
            hits_upto(view, sl@, rs, fs, demangle_names, want_size, k as nat) == Ok::<
                _,
                ErrorKind,
            >(hits_view(hits@)),
            skipped@ == unnamed_upto(view, sl@, k as nat),
            forall|i: int| 0 <= i < hits@.len() ==> hits@[i].pos < view.symbols@.len(),
        decreases sl@.len() - k,
    {
        let pos = sl[k];
        if view.symbols[pos].name.is_none() {
            skipped.push(pos);
        }
        match name_hit(view, sl, re, filter, demangle_names, want_size, pos) {
            Err(e) => {
                proof {
                    lemma_hits_error_stays(
                        view,
                        sl@,
                        rs,
                        fs,
                        demangle_names,
                        want_size,
                        (k + 1) as nat,
                        sl@.len(),
                    );
                }
                return Err(e);
            },
            Ok(None) => {},
            Ok(Some(h)) => {
                let ghost before = hits@;
                hits.push(h);
                assert(hits_view(hits@) =~= hits_view(before).push(h@));
            },
        }
        k = k + 1;
    }
    Ok((hits, skipped))
}

pub open spec fn triple_le(a: (Seq<u8>, u64, usize), b: (Seq<u8>, u64, usize)) -> bool {
    (bytes_le(a.0, b.0) && a.0 != b.0) || (a.0 == b.0 && pair_le((a.1, a.2), (b.1, b.2)))
}

pub open spec fn key_view(k: (Vec<u8>, u64, usize)) -> (Seq<u8>, u64, usize) {
    (k.0@, k.1, k.2)
}

/// Relies on `<[T]>::sort`: the same elements, ascending in std's order of
/// tuples, which compares byte vectors lexicographically.
#[verifier::external_body]
fn sort_keys(v: &mut Vec<(Vec<u8>, u64, usize)>)
    ensures
        final(v)@.to_multiset() == old(v)@.to_multiset(),
        forall|i: int, j: int|
            0 <= i < j < final(v)@.len() ==> triple_le(
                key_view(final(v)@[i]),
                key_view(final(v)@[j]),
            ),
{
    v.sort();
}

proof fn lemma_bytes_le_refl(a: Seq<u8>)
    ensures
        bytes_le(a, a),
    decreases a.len(),
{
    if a.len() > 0 {
        lemma_bytes_le_refl(a.drop_first());
    }
}

/// An order of the hits that the sort options ask for; with neither option,
/// the hits keep their order.
pub fn order_hits(hits: &Vec<Hit>, sort_size: bool, sort_name: bool) -> (order: Vec<usize>)
    ensures
        is_permutation(order@, hits@.len()),
        sorted_for(reorder(hits_view(hits@), order@), sort_size, sort_name),
        !sort_size && !sort_name ==> order@ == Seq::new(hits@.len(), |i: int| i as usize),
{
    broadcast use vstd::seq_lib::group_to_multiset_ensures;

    let n = hits.len();
    let ghost hv = hits_view(hits@);
    let mut order: Vec<usize> = Vec::new();
    if !sort_name {
        let mut keys: Vec<(u64, usize)> = Vec::new();
        let mut i: usize = 0;
        while i < n
            invariant
                n == hits@.len(),
                i <= n,
                keys@.len() == i,
                forall|m: int| 0 <= m < i ==> keys@[m] == (hits@[m].size, m as usize),
            decreases n - i,
        {
            keys.push((hits[i].size, i));
            i = i + 1;
        }
        assert(keys@.no_duplicates()) by {
            assert forall|a: int, b: int|
                0 <= a < keys@.len() && 0 <= b < keys@.len() && a != b implies keys@[a]
                != keys@[b] by {
                assert(keys@[a].1 == a && keys@[b].1 == b);
            }
        }
        let ghost before = keys@;
        if sort_size {
            sort_distinct_pairs(&mut keys);
        }
        assert forall|k: int| 0 <= k < keys@.len() implies keys@[k].1 < n && keys@[k].0
            == hits@[keys@[k].1 as int].size by {
            assert(keys@.contains(keys@[k]));
            assert(before.contains(keys@[k]));
        }
        let mut k: usize = 0;
        while k < keys.len()
            invariant
                n == hits@.len(),
                k <= keys@.len(),
                keys@.len() == n,
                order@.len() == k,
                forall|m: int| 0 <= m < k ==> order@[m] == keys@[m].1,
                sort_size ==> forall|a: int, b: int|
                    0 <= a < b < keys@.len() ==> pair_le(keys@[a], keys@[b]) && keys@[a]
                        != keys@[b],
                !sort_size ==> keys@ == before,
                before.len() == n,
                forall|m: int| 0 <= m < n ==> before[m] == (hits@[m].size, m as usize),
                forall|m: int|
                    0 <= m < keys@.len() ==> keys@[m].1 < n && keys@[m].0 == hits@[keys@[m].1 as int].size,
            decreases keys@.len() - k,
        {
            order.push(keys[k].1);
            k = k + 1;
        }
        proof {
            assert forall|a: int, b: int|
                0 <= a < order@.len() && 0 <= b < order@.len() && a != b implies order@[a]
                != order@[b] by {
                if sort_size {
                    if a < b {
                        assert(pair_le(keys@[a], keys@[b]));
                        assert(keys@[a] != keys@[b]);
                    } else {
                        assert(pair_le(keys@[b], keys@[a]));
                        assert(keys@[b] != keys@[a]);
                    }
                } else {
                    assert(keys@ == before);
                }
            }
            let r = reorder(hv, order@);
            assert forall|a: int, b: int| 0 <= a < b < r.len() implies #[trigger] in_order(
                r[a],
                r[b],
                sort_size,
                sort_name,
            ) by {
                if sort_size {
                    assert(pair_le(keys@[a], keys@[b]));
                }
            }
            assert(sorted_for(r, sort_size, sort_name));
            if !sort_size {
                assert(keys@ == before);
                assert(order@ =~= Seq::new(hits@.len(), |i: int| i as usize));
            }
        }
    } else {
        let mut keys: Vec<(Vec<u8>, u64, usize)> = Vec::new();
        let mut i: usize = 0;
        while i < n
            invariant
                n == hits@.len(),
                i <= n,
                keys@.len() == i,
                forall|m: int|
                    0 <= m < i ==> key_view(keys@[m]) == (hits@[m].name@, hits@[m].size, m as usize),
            decreases n - i,
        {
            keys.push((vstd::slice::slice_to_vec(hits[i].name.as_slice()), hits[i].size, i));
            i = i + 1;
        }
        let ghost before = keys@;
        sort_keys(&mut keys);
        proof {
            vstd::seq_lib::to_multiset_len(before);
            vstd::seq_lib::to_multiset_len(keys@);
            assert forall|k: int| 0 <= k < keys@.len() implies before.contains(keys@[k]) by {
                vstd::seq_lib::to_multiset_contains(keys@, keys@[k]);
                vstd::seq_lib::to_multiset_contains(before, keys@[k]);
                assert(keys@.contains(keys@[k]));
            }
        }
        assert forall|k: int| 0 <= k < keys@.len() implies keys@[k].2 < n && key_view(keys@[k])
            == (hits@[keys@[k].2 as int].name@, hits@[keys@[k].2 as int].size, keys@[k].2) by {
            assert(before.contains(keys@[k]));
            let w = choose|w: int| 0 <= w < before.len() && before[w] == keys@[k];
        }
        let mut k: usize = 0;
        while k < keys.len()
            invariant
                n == hits@.len(),
                k <= keys@.len(),
                keys@.len() == n,
                order@.len() == k,
                forall|m: int| 0 <= m < k ==> order@[m] == keys@[m].2,
                forall|a: int, b: int|
                    0 <= a < b < keys@.len() ==> triple_le(key_view(keys@[a]), key_view(keys@[b])),
                forall|m: int|
                    0 <= m < keys@.len() ==> keys@[m].2 < n && key_view(keys@[m]) == (
                        hits@[keys@[m].2 as int].name@,
                        hits@[keys@[m].2 as int].size,
                        keys@[m].2,
                    ),
                forall|m: int| 0 <= m < keys@.len() ==> before.contains(#[trigger] keys@[m]),
                keys@.to_multiset() == before.to_multiset(),
                before.len() == n,
                forall|m: int|
                    0 <= m < n ==> key_view(before[m]) == (hits@[m].name@, hits@[m].size, m as usize),
            decreases keys@.len() - k,
        {
            order.push(keys[k].2);
            k = k + 1;
        }
        proof {
            assert forall|a: int, b: int|
                0 <= a < order@.len() && 0 <= b < order@.len() && a != b implies order@[a]
                != order@[b] by {
                if order@[a] == order@[b] {
                    let (x, y) = if a < b {
                        (a, b)
                    } else {
                        (b, a)
                    };
                    assert(triple_le(key_view(keys@[x]), key_view(keys@[y])));
                    assert(key_view(keys@[x]) == key_view(keys@[y]));
                    assert(keys@[x] == keys@[y]) by {
                        assert(before.contains(keys@[x]));
                        assert(before.contains(keys@[y]));
                        let wx = choose|w: int| 0 <= w < before.len() && before[w] == keys@[x];
                        let wy = choose|w: int| 0 <= w < before.len() && before[w] == keys@[y];
                        assert(wx == wy);
                    }
                    assert(keys@.to_multiset().count(keys@[x]) >= 2) by {
                        let s0 = keys@.subrange(0, y);
                        let s1 = keys@.subrange(y, keys@.len() as int);
                        assert(keys@ =~= s0 + s1);
                        vstd::seq_lib::lemma_multiset_commutative(s0, s1);
                        assert(s0.contains(keys@[x]));
                        assert(s1.contains(keys@[x])) by {
                            assert(s1[0] == keys@[y]);
                        }
                        vstd::seq_lib::to_multiset_contains(s0, keys@[x]);
                        vstd::seq_lib::to_multiset_contains(s1, keys@[x]);
                    }
                    assert(before.no_duplicates()) by {
                        assert forall|p: int, q: int|
                            0 <= p < before.len() && 0 <= q < before.len() && p != q implies before[p]
                            != before[q] by {
                            assert(key_view(before[p]).2 == p);
                            assert(key_view(before[q]).2 == q);
                        }
                    }
                    before.lemma_multiset_has_no_duplicates();
                    vstd::seq_lib::to_multiset_contains(before, keys@[x]);
                }
            }
            let r = reorder(hv, order@);
            assert forall|a: int, b: int| 0 <= a < b < r.len() implies #[trigger] in_order(
                r[a],
                r[b],
                sort_size,
                sort_name,
            ) by {
                assert(triple_le(key_view(keys@[a]), key_view(keys@[b])));
                lemma_bytes_le_refl(r[a].1);
            }
            assert(sorted_for(r, sort_size, sort_name));
        }
    }
    order
}

pub open spec fn filter_text(f: Option<String>) -> Option<Seq<char>> {
    match f {
        Some(t) => Some(t@),
        None => None,
    }
}

pub open spec fn filter_refused(f: Option<String>) -> bool {
    match f {
        Some(t) => !regex_accepts(t@),
        None => false,
    }
}

/// What a symbol search prints, given the hits in list order: in list order
/// unless a sort was asked for, else in some order that the sort asks for.
pub open spec fn prints_hits(
    view: &Explorer,
    cmd: &SearchCommand,
    hs: Seq<(usize, Seq<u8>, u64)>,
    out: Seq<u8>,
) -> bool {
    if !cmd.sort_size && !cmd.sort_name {
        out == report(view, hs, cmd.only_duplicate, cmd.size, cmd.size)
    } else {
        exists|order: Seq<usize>|
            is_permutation(order, hs.len()) && sorted_for(
                #[trigger] reorder(hs, order),
                cmd.sort_size,
                cmd.sort_name,
            ) && out == report(view, reorder(hs, order), cmd.only_duplicate, cmd.size, cmd.size)
    }
}

/// Searches symbol names with the keyword as a pattern. Returns what is
/// printed, and the positions of unnamed symbols that were skipped.
pub fn search_symbols(view: &Explorer, sl: &[usize], cmd: &SearchCommand) -> (r: Result<
    (Vec<u8>, Vec<usize>),
    ErrorKind,
>)
    requires
        symlist_sorted(view, sl@),
    ensures
        !regex_accepts(cmd.keyword@) ==> r == Err::<(Vec<u8>, Vec<usize>), ErrorKind>(
            ErrorKind::Decode,
        ),
        regex_accepts(cmd.keyword@) && filter_refused(cmd.filter_section) ==> r == Err::<
            (Vec<u8>, Vec<usize>),
            ErrorKind,
        >(ErrorKind::Decode),
        regex_accepts(cmd.keyword@) && !filter_refused(cmd.filter_section) ==> match hits_upto(
            view,
            sl@,
            cmd.keyword@,
            filter_text(cmd.filter_section),
            cmd.demangle,
            cmd.size || cmd.sort_size,
            sl@.len(),
        ) {
            Err(e) => r == Err::<(Vec<u8>, Vec<usize>), ErrorKind>(e),
            Ok(hs) => r is Ok && r->Ok_0.1@ == unnamed_upto(view, sl@, sl@.len()) && prints_hits(
                view,
                cmd,
                hs,
                r->Ok_0.0@,
            ),
        },
{
    let re = match Pattern::new(cmd.keyword.as_str()) {
        Some(p) => p,
        None => {
            return Err(ErrorKind::Decode);
        },
    };
    let filter = match &cmd.filter_section {
        Some(f) => match Pattern::new(f.as_str()) {
            Some(p) => Some(p),
            None => {
                return Err(ErrorKind::Decode);
            },
        },
        None => None,
    };
    assert(pattern_source(filter) == filter_text(cmd.filter_section));
    let (hits, skipped) = match collect_name_hits(
        view,
        sl,
        &re,
        &filter,
        cmd.demangle,
        cmd.size || cmd.sort_size,
    ) {
        Ok(x) => x,
        Err(e) => {
            return Err(e);
        },
    };
    let order = order_hits(&hits, cmd.sort_size, cmd.sort_name);
    let out = render_hits(view, &hits, &order, cmd.only_duplicate, cmd.size, cmd.size);
    proof {
        let hs = hits_view(hits@);
        if !cmd.sort_size && !cmd.sort_name {
            assert(reorder(hs, order@) =~= hs);
        } else {
            assert(is_permutation(order@, hs.len()));
        }
    }
    Ok((out, skipped))
}

/// A search that finds nothing prints, with sizes asked for, a total of
/// zero and nothing else.
pub proof fn lemma_empty_search_total(view: &Explorer, only_duplicate: bool)
    ensures
        report(view, Seq::empty(), only_duplicate, true, true) == seq![
            115u8,
            117u8,
            109u8,
            58u8,
            32u8,
            48u8,
            10u8,
        ],
{
    let e = Seq::<(usize, Seq<u8>, u64)>::empty();
    assert(repeats(e) =~= e);
    assert(lines_of(view, e, true) =~= Seq::<u8>::empty());
    assert(dec_digits(0) =~= seq![48u8]);
    assert(report(view, e, only_duplicate, true, true) =~= seq![
        115u8,
        117u8,
        109u8,
        58u8,
        32u8,
        48u8,
        10u8,
    ]);
}

/// The callee of a callsite search: a Text symbol and its section.
pub struct CallTarget {
    pub address: u64,
    /// Position of the callee in the symbol table.
    pub pos: usize,
    /// Index of the callee's section.
    pub section: usize,
    /// Position of that section in `sections`.
    pub section_pos: usize,
}

/// A symbol whose code is scanned for calls: its position, and the range of
/// its bytes within its section's data.
pub struct Candidate {
    pub pos: usize,
    pub start: usize,
    pub end: usize,
}

/// `k` is the first list entry at address `a` that names code.
pub open spec fn is_first_text(view: &Explorer, sl: Seq<usize>, a: u64, k: int) -> bool {
    &&& 0 <= k < sl.len()
    &&& view.sym_addr(sl[k] as int) == a
    &&& view.symbols@[sl[k] as int].kind == SymbolKind::Text
    &&& forall|m: int|
        0 <= m < k ==> !(view.sym_addr(sl[m] as int) == a && view.symbols@[sl[m] as int].kind
            == SymbolKind::Text)
}

pub open spec fn first_text(view: &Explorer, sl: Seq<usize>, a: u64) -> Option<int> {
    if exists|k: int| is_first_text(view, sl, a, k) {
        Some(choose|k: int| is_first_text(view, sl, a, k))
    } else {
        None
    }
}

/// The callee at address `a`: the first code symbol there in list order,
/// which must lie in a known section.
pub open spec fn target_spec(view: &Explorer, sl: Seq<usize>, a: u64) -> Result<
    (usize, usize, int),
    ErrorKind,
> {
    match first_text(view, sl, a) {
        None => Err(ErrorKind::NotFound),
        Some(k) => match view.symbols@[sl[k] as int].section {
            SymbolSection::Section(i) => match view.section_pos(i) {
                Some(sp) => Ok((sl[k], i, sp)),
                None => Err(ErrorKind::NotFound),
            },
            _ => Err(ErrorKind::NotFound),
        },
    }
}

/// Finds the callee of a callsite search at address `a`.
pub fn callsite_target(view: &Explorer, sl: &[usize], a: u64) -> (r: Result<
    CallTarget,
    ErrorKind,
>)
    requires
        symlist_sorted(view, sl@),
    ensures
        match target_spec(view, sl@, a) {
            Ok((p, i, sp)) => r is Ok && r->Ok_0.pos == p && r->Ok_0.section == i
                && r->Ok_0.section_pos == sp && r->Ok_0.address == a,
            Err(e) => r == Err::<CallTarget, ErrorKind>(e),
        },
{
    let mut lo: usize = 0;
    let mut hi: usize = sl.len();
    while lo < hi
        invariant
            symlist_sorted(view, sl@),
            lo <= hi <= sl@.len(),
            forall|m: int| 0 <= m < lo ==> view.sym_addr(sl@[m] as int) < a,
            forall|m: int| hi <= m < sl@.len() ==> view.sym_addr(sl@[m] as int) >= a,
        decreases hi - lo,
    {
        let mid = lo + (hi - lo) / 2;
        if view.symbols[sl[mid]].address < a {
            lo = mid + 1;
        } else {
            hi = mid;
        }
    }
    let mut k = lo;
    while k < sl.len() && view.symbols[sl[k]].address == a && view.symbols[sl[k]].kind
        != SymbolKind::Text
        invariant
            symlist_sorted(view, sl@),
            lo <= k <= sl@.len(),
            forall|m: int| 0 <= m < lo ==> view.sym_addr(sl@[m] as int) < a,
            forall|m: int| lo <= m < k ==> view.symbols@[sl@[m] as int].kind != SymbolKind::Text,
        decreases sl@.len() - k,
    {
        k = k + 1;
    }
    if k >= sl.len() || view.symbols[sl[k]].address != a {
        proof {
            assert forall|c: int| !is_first_text(view, sl@, a, c) by {
                if 0 <= c < sl@.len() && view.sym_addr(sl@[c] as int) == a {
                    if c >= k && k < sl@.len() {
                        assert(view.sym_addr(sl@[k as int] as int) <= view.sym_addr(
                            sl@[c] as int,
                        ));
                        assert(view.sym_addr(sl@[k as int] as int) >= a);
                    }
                }
            }
        }
        return Err(ErrorKind::NotFound);
    }
    proof {
        assert(is_first_text(view, sl@, a, k as int));
        let c = choose|c: int| is_first_text(view, sl@, a, c);
        assert(c == k as int) by {
            if c < k {
            } else if c > k {
            }
        }
    }
    let pos = sl[k];
    match view.symbols[pos].section {
        SymbolSection::Section(i) => match view.find_section(i) {
            Some(sp) => Ok(CallTarget { address: a, pos, section: i, section_pos: sp }),
            None => Err(ErrorKind::NotFound),
        },
        _ => Err(ErrorKind::NotFound),
    }
}

/// What the candidate scan makes of the symbol at position `p`: symbols of
/// other sections and unnamed symbols are passed over; a symbol that starts
/// before its section or whose bytes run past `data_len` is an error.
pub open spec fn candidate_step(
    view: &Explorer,
    sl: Seq<usize>,
    section: usize,
    sec_addr: u64,
    data_len: nat,
    p: usize,
) -> Result<Option<(usize, int, int)>, ErrorKind> {
    let sym = view.symbols@[p as int];
    if sym.section != SymbolSection::Section(section) || sym.name is None {
        Ok(None)
    } else if sym.address < sec_addr {
        Err(ErrorKind::NotFound)
    } else {
        match size_spec(view, sl, &sym) {
            Err(e) => Err(e),
            Ok(z) => {
                let start = sym.address - sec_addr;
                if start + z > data_len {
                    Err(ErrorKind::NotFound)
                } else {
                    Ok(Some((p, start, start + z)))
                }
            },
        }
    }
}

pub open spec fn candidates_upto(
    view: &Explorer,
    sl: Seq<usize>,
    section: usize,
    sec_addr: u64,
    data_len: nat,
    k: nat,
) -> Result<Seq<(usize, int, int)>, ErrorKind>
    decreases k,
{
    if k == 0 {
        Ok(Seq::empty())
    } else {
        match candidates_upto(view, sl, section, sec_addr, data_len, (k - 1) as nat) {
            Err(e) => Err(e),
            Ok(c) => match candidate_step(view, sl, section, sec_addr, data_len, sl[k - 1]) {
                Err(e) => Err(e),
                Ok(None) => Ok(c),
                Ok(Some(x)) => Ok(c.push(x)),
            },
        }
    }
}

pub open spec fn candidates_view(cs: Seq<Candidate>) -> Seq<(usize, int, int)> {
    cs.map_values(|c: Candidate| (c.pos, c.start as int, c.end as int))
}

proof fn lemma_candidates_error_stays(
    view: &Explorer,
    sl: Seq<usize>,
    section: usize,
    sec_addr: u64,
    data_len: nat,
    k: nat,
    m: nat,
)
    requires
        k <= m,
        candidates_upto(view, sl, section, sec_addr, data_len, k) is Err,
    ensures
        candidates_upto(view, sl, section, sec_addr, data_len, m) == candidates_upto(
            view,
            sl,
            section,
            sec_addr,
            data_len,
            k,
        ),
    decreases m - k,
{
    if k < m {
        lemma_candidates_error_stays(view, sl, section, sec_addr, data_len, k, (m - 1) as nat);
    }
}

/// The symbols of the callee's section, in list order, with the ranges of
/// their bytes in that section's data of `data_len` bytes.
pub fn callsite_candidates(view: &Explorer, sl: &[usize], target: &CallTarget, data_len: usize) -> (r:
    Result<Vec<Candidate>, ErrorKind>)
    requires
        symlist_sorted(view, sl@),
        target.section_pos < view.sections@.len(),
    ensures
        match candidates_upto(
            view,
            sl@,
            target.section,
            view.sections@[target.section_pos as int].address,
            data_len as nat,
            sl@.len(),
        ) {
            Ok(cs) => r is Ok && candidates_view(r->Ok_0@) == cs,
            Err(e) => r == Err::<Vec<Candidate>, ErrorKind>(e),
        },
{
    let sec_addr = view.sections[target.section_pos].address;
    let mut out: Vec<Candidate> = Vec::new();
    let mut k: usize = 0;
    assert(candidates_view(out@) =~= Seq::<(usize, int, int)>::empty());
    while k < sl.len()
        invariant
            symlist_sorted(view, sl@),
            k <= sl@.len(),
            sec_addr == view.sections@[target.section_pos as int].address,
            target.section_pos < view.sections@.len(),
            candidates_upto(view, sl@, target.section, sec_addr, data_len as nat, k as nat)
                == Ok::<_, ErrorKind>(candidates_view(out@)),
        decreases sl@.len() - k,
    {
        let p = sl[k];
        let sym = &view.symbols[p];
        let same = match sym.section {
            SymbolSection::Section(i) => i == target.section,
            _ => false,
        };
        if same && sym.name.is_some() {
            if sym.address < sec_addr {
                proof {
                    lemma_candidates_error_stays(
                        view,
                        sl@,
                        target.section,
                        sec_addr,
                        data_len as nat,
                        (k + 1) as nat,
                        sl@.len(),
                    );
                }
                return Err(ErrorKind::NotFound);
            }
            let size = match view.symbol_size(sl, p) {
                Ok(z) => z,
                Err(e) => {
                    proof {
                        lemma_candidates_error_stays(
                            view,
                            sl@,
                            target.section,
                            sec_addr,
                            data_len as nat,
                            (k + 1) as nat,
                            sl@.len(),
                        );
                    }
                    return Err(e);
                },
            };
            let start = sym.address - sec_addr;
            if start as u128 + size as u128 > data_len as u128 {
                proof {
                    lemma_candidates_error_stays(
                        view,
                        sl@,
                        target.section,
                        sec_addr,
                        data_len as nat,
                        (k + 1) as nat,
                        sl@.len(),
                    );
                }
                return Err(ErrorKind::NotFound);
            }
            let ghost before = out@;
            out.push(Candidate { pos: p, start: start as usize, end: (start + size) as usize });
            assert(candidates_view(out@) =~= candidates_view(before).push(
                (p, start as int, (start + size) as int),
            ));
        }
        k = k + 1;
    }
    Ok(out)
}

/// Whether the first `k` instructions call `a`: some branch among them
/// refers to an address that resolves to `a`. The first refused
/// instruction ends the scan with an error.
pub open spec fn calls_upto(
    view: &Explorer,
    rel: Seq<DynReloc>,
    d: Disassembler,
    insts: Seq<Inst>,
    a: u64,
    k: nat,
) -> Result<bool, ErrorKind>
    decreases k,
{
    if k == 0 {
        Ok(false)
    } else {
        match calls_upto(view, rel, d, insts, a, (k - 1) as nat) {
            Err(e) => Err(e),
            Ok(true) => Ok(true),
            Ok(false) => match operand_target(d, &insts[k - 1]) {
                Err(e) => Err(e),
                Ok(None) => Ok(false),
                Ok(Some(x)) => Ok(
                    resolve_spec(view, rel, x) is Some && resolve_spec(view, rel, x)->Some_0.1
                        == a,
                ),
            },
        }
    }
}

proof fn lemma_calls_settled(
    view: &Explorer,
    rel: Seq<DynReloc>,
    d: Disassembler,
    insts: Seq<Inst>,
    a: u64,
    k: nat,
    m: nat,
)
    requires
        k <= m,
        calls_upto(view, rel, d, insts, a, k) != Ok::<bool, ErrorKind>(false),
    ensures
        calls_upto(view, rel, d, insts, a, m) == calls_upto(view, rel, d, insts, a, k),
    decreases m - k,
{
    if k < m {
        lemma_calls_settled(view, rel, d, insts, a, k, (m - 1) as nat);
    }
}

/// Whether the instructions of a candidate call the callee at `a`.
pub fn is_caller(
    view: &Explorer,
    rel: &[DynReloc],
    d: Disassembler,
    insts: &Vec<Inst>,
    a: u64,
) -> (r: Result<bool, ErrorKind>)
    requires
        view.wf(),
        relocs_sorted(rel@),
    ensures
        r == calls_upto(view, rel@, d, insts@, a, insts@.len()),
{
    let mut k: usize = 0;
    while k < insts.len()
        invariant
            view.wf(),
            relocs_sorted(rel@),
            k <= insts@.len(),
            calls_upto(view, rel@, d, insts@, a, k as nat) == Ok::<bool, ErrorKind>(false),
        decreases insts@.len() - k,
    {
        match d.operand2addr(&insts[k]) {
            Err(e) => {
                proof {
                    lemma_calls_settled(view, rel@, d, insts@, a, (k + 1) as nat, insts@.len());
                }
                return Err(e);
            },
            Ok(None) => {},
            Ok(Some(x)) => match query_symbol_by_addr(view, rel, x) {
                Some((_, y)) => {
                    if y == a {
                        proof {
                            lemma_calls_settled(
                                view,
                                rel@,
                                d,
                                insts@,
                                a,
                                (k + 1) as nat,
                                insts@.len(),
                            );
                        }
                        return Ok(true);
                    }
                },
                None => {},
            },
        }
        k = k + 1;
    }
    Ok(false)
}

/// The hit printed for a caller: its name as shown and the size of its
/// scanned range.
pub fn candidate_hit(view: &Explorer, c: &Candidate, demangle_names: bool) -> (r: Hit)
    requires
        c.pos < view.symbols@.len(),
        view.symbols@[c.pos as int].name is Some,
        c.start <= c.end,
    ensures
        r@ == (
            c.pos,
            vstd::utf8::encode_utf8(
                shown_name(demangle_names, view.symbols@[c.pos as int].name->Some_0@),
            ),
            (c.end - c.start) as u64,
        ),
{
    let n = match &view.symbols[c.pos].name {
        Some(n) => n,
        None => {
            return Hit { pos: c.pos, name: Vec::new(), size: 0 };
        },
    };
    let dn = if demangle_names {
        demangle(n.as_str())
    } else {
        n.clone()
    };
    Hit {
        pos: c.pos,
        name: vstd::slice::slice_to_vec(dn.as_str().as_bytes()),
        size: (c.end - c.start) as u64,
    }
}

/// An order of the callers: by symbol index, unless a sort is asked for.
pub fn order_callers(view: &Explorer, hits: &Vec<Hit>, sort_size: bool, sort_name: bool) -> (order:
    Vec<usize>)
    requires
        forall|i: int| 0 <= i < hits@.len() ==> hits@[i].pos < view.symbols@.len(),
    ensures
        is_permutation(order@, hits@.len()),
        sort_size || sort_name ==> sorted_for(
            reorder(hits_view(hits@), order@),
            sort_size,
            sort_name,
        ),
        !sort_size && !sort_name ==> forall|a: int, b: int|
            0 <= a < b < order@.len() ==> view.symbols@[hits@[order@[a] as int].pos as int].index
                <= view.symbols@[hits@[order@[b] as int].pos as int].index,
{
    if sort_size || sort_name {
        return order_hits(hits, sort_size, sort_name);
    }
    let n = hits.len();
    let mut keys: Vec<(u64, usize)> = Vec::new();
    let mut i: usize = 0;
    while i < n
        invariant
            n == hits@.len(),
            forall|m: int| 0 <= m < hits@.len() ==> hits@[m].pos < view.symbols@.len(),
            i <= n,
            keys@.len() == i,
            forall|m: int|
                0 <= m < i ==> keys@[m] == (
                    view.symbols@[hits@[m].pos as int].index as u64,
                    m as usize,
                ),
        decreases n - i,
    {
        keys.push((view.symbols[hits[i].pos].index as u64, i));
        i = i + 1;
    }
    assert(keys@.no_duplicates()) by {
        assert forall|a: int, b: int|
            0 <= a < keys@.len() && 0 <= b < keys@.len() && a != b implies keys@[a]
            != keys@[b] by {
            assert(keys@[a].1 == a && keys@[b].1 == b);
        }
    }
    let ghost before = keys@;
    sort_distinct_pairs(&mut keys);
    assert forall|k: int| 0 <= k < keys@.len() implies keys@[k].1 < n && keys@[k].0
        == view.symbols@[hits@[keys@[k].1 as int].pos as int].index as u64 by {
        assert(keys@.contains(keys@[k]));
        assert(before.contains(keys@[k]));
    }
    let mut order: Vec<usize> = Vec::new();
    let mut k: usize = 0;
    while k < keys.len()
        invariant
            n == hits@.len(),
            k <= keys@.len(),
            keys@.len() == n,
            order@.len() == k,
            forall|m: int| 0 <= m < k ==> order@[m] == keys@[m].1,
            forall|a: int, b: int|
                0 <= a < b < keys@.len() ==> pair_le(keys@[a], keys@[b]) && keys@[a] != keys@[b],
            forall|m: int|
                0 <= m < keys@.len() ==> keys@[m].1 < n && keys@[m].0 == view.symbols@[hits@[keys@[m].1 as int].pos as int].index as u64,
        decreases keys@.len() - k,
    {
        order.push(keys[k].1);
        k = k + 1;
    }
    proof {
        assert forall|a: int, b: int|
            0 <= a < order@.len() && 0 <= b < order@.len() && a != b implies order@[a]
            != order@[b] by {
            if a < b {
                assert(pair_le(keys@[a], keys@[b]));
                assert(keys@[a] != keys@[b]);
            } else {
                assert(pair_le(keys@[b], keys@[a]));
                assert(keys@[b] != keys@[a]);
            }
        }
        assert forall|a: int, b: int| 0 <= a < b < order@.len() implies view.symbols@[hits@[order@[
            a] as int].pos as int].index <= view.symbols@[hits@[order@[b] as int].pos as int].index by {
            assert(pair_le(keys@[a], keys@[b]));
        }
    }
    order
}

/// Sections whose bytes a data search scans.
pub open spec fn is_data_kind(k: SectionKind) -> bool {
    match k {
        SectionKind::Data | SectionKind::ReadOnlyData | SectionKind::ReadOnlyDataWithRel
        | SectionKind::ReadOnlyString | SectionKind::Tls | SectionKind::TlsVariables
        | SectionKind::OtherString | SectionKind::DebugString | SectionKind::Note => true,
        _ => false,
    }
}

/// Whether a data search scans sections of this kind.
pub fn is_data_section(kind: SectionKind) -> (r: bool)
    ensures
        r == is_data_kind(kind),
{
    match kind {
        SectionKind::Data | SectionKind::ReadOnlyData | SectionKind::ReadOnlyDataWithRel
        | SectionKind::ReadOnlyString | SectionKind::Tls | SectionKind::TlsVariables
        | SectionKind::OtherString | SectionKind::DebugString | SectionKind::Note => true,
        _ => false,
    }
}

/// A data section that the filter, if any, lets through: one whose name is
/// unknown passes.
pub open spec fn data_section_selected(s: &Section, filter: Option<Seq<char>>) -> bool {
    &&& is_data_kind(s.kind)
    &&& !(filter is Some && s.name is Some && !regex_finds(filter->Some_0, s.name->Some_0@))
}

pub open spec fn name_bytes(n: Option<String>) -> Seq<u8> {
    match n {
        Some(t) => vstd::utf8::encode_utf8(t@),
        None => Seq::empty(),
    }
}

/// One data match: address, section name and the matched bytes as text,
/// separated by tabs.
pub open spec fn data_line(addr: u64, name: Seq<u8>, text: Seq<char>) -> Seq<u8> {
    addr_text(addr) + seq![9u8] + name + seq![9u8] + vstd::utf8::encode_utf8(text) + seq![10u8]
}

pub open spec fn data_lines(base: u64, name: Seq<u8>, data: Seq<u8>, ms: Seq<(usize, usize)>) -> Seq<
    u8,
>
    decreases ms.len(),
{
    if ms.len() == 0 {
        Seq::empty()
    } else {
        data_lines(base, name, data, ms.drop_last()) + data_line(
            (base + ms.last().0) as u64,
            name,
            lossy_text(data.subrange(ms.last().0 as int, ms.last().1 as int)),
        )
    }
}

/// The lines that a data search prints for section `k`, whose bytes are
/// `data`: every match of the pattern, or nothing for a section that is not
/// scanned.
pub fn search_section_data(
    view: &Explorer,
    k: usize,
    data: &[u8],
    re: &BytesPattern,
    filter: &Option<Pattern>,
) -> (r: Vec<u8>)
    requires
        k < view.sections@.len(),
        view.sections@[k as int].address + data@.len() <= u64::MAX,
    ensures
        r@ == if data_section_selected(&view.sections@[k as int], pattern_source(*filter)) {
            data_lines(
                view.sections@[k as int].address,
                name_bytes(view.sections@[k as int].name),
                data@,
                bytes_regex_matches(re.source(), data@),
            )
        } else {
            Seq::empty()
        },
{
    let section = &view.sections[k];
    let mut out: Vec<u8> = Vec::new();
    if !is_data_section(section.kind) {
        return out;
    }
    let pass = match (filter, &section.name) {
        (Some(f), Some(n)) => f.is_match(n.as_str()),
        _ => true,
    };
    if !pass {
        return out;
    }
    let name: &[u8] = match &section.name {
        Some(n) => n.as_str().as_bytes(),
        None => &[],
    };
    assert(name@ =~= name_bytes(section.name));
    let ms = re.find_all(data);
    let base = section.address;
    let mut i: usize = 0;
    while i < ms.len()
        invariant
            i <= ms@.len(),
            base as int + data@.len() <= u64::MAX,
            forall|m: int| 0 <= m < ms@.len() ==> #[trigger] ms@[m].0 <= ms@[m].1 <= data@.len(),
            out@ == data_lines(base, name@, data@, ms@.subrange(0, i as int)),
        decreases ms@.len() - i,
    {
        let (start, end) = ms[i];
        assert(ms@[i as int].0 <= ms@[i as int].1 <= data@.len());
        push_addr(&mut out, base + start as u64);
        out.push(9);
        push_all(&mut out, name);
        out.push(9);
        let text = bytes_as_text(vstd::slice::slice_subrange(data, start, end));
        push_all(&mut out, text.as_str().as_bytes());
        out.push(10);
        proof {
            let t = ms@.subrange(0, i + 1);
            assert(t.drop_last() =~= ms@.subrange(0, i as int));
        }
        i = i + 1;
        assert(out@ =~= data_lines(base, name@, data@, ms@.subrange(0, i as int)));
    }
    assert(ms@.subrange(0, ms@.len() as int) =~= ms@);
    out
}

} // verus!
