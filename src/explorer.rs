use vstd::prelude::*;
use crate::error::ErrorKind;
use crate::model::{
    BinaryFormat, DynReloc, Explorer, SectionKind, Symbol, SymbolSection,
};

verus! {

/// Letter for a symbol defined in a section of the given kind.
pub open spec fn section_letter(kind: Option<SectionKind>) -> char {
    match kind {
        Some(SectionKind::Text) => 't',
        Some(SectionKind::Data) | Some(SectionKind::Tls) | Some(SectionKind::TlsVariables) => 'd',
        Some(SectionKind::ReadOnlyData) | Some(SectionKind::ReadOnlyString) => 'r',
        Some(SectionKind::UninitializedData) | Some(SectionKind::UninitializedTls) => 'b',
        Some(SectionKind::Common) => 'C',
        _ => '?',
    }
}

/// Upper-case form of a kind letter, used for global symbols.
pub open spec fn global_letter(c: char) -> char {
    if c == 't' {
        'T'
    } else if c == 'd' {
        'D'
    } else if c == 'r' {
        'R'
    } else if c == 'b' {
        'B'
    } else {
        c
    }
}

/// The one-letter kind code of `sym`, in the manner of UNIX symbol listers.
pub open spec fn kind_code(view: &Explorer, sym: &Symbol) -> char {
    let c = match sym.section {
        SymbolSection::Undefined => 'U',
        SymbolSection::Absolute => 'A',
        SymbolSection::Common => 'C',
        SymbolSection::Section(idx) => section_letter(
            match view.section_pos(idx) {
                Some(k) => Some(view.sections@[k].kind),
                None => None,
            },
        ),
        _ => '?',
    };
    if sym.is_global {
        global_letter(c)
    } else {
        c
    }
}

/// `sl` holds positions in `view.symbols`, ordered by address.
pub open spec fn symlist_sorted(view: &Explorer, sl: Seq<usize>) -> bool {
    &&& forall|k: int| 0 <= k < sl.len() ==> sl[k] < view.symbols@.len()
    &&& forall|i: int, j: int|
        0 <= i < j < sl.len() ==> view.sym_addr(sl[i] as int) <= view.sym_addr(sl[j] as int)
}

/// `sl` lists every symbol exactly once, by address, and symbols that share
/// an address in table order.
pub open spec fn symlist_ok(view: &Explorer, sl: Seq<usize>) -> bool {
    &&& symlist_sorted(view, sl)
    &&& sl.len() == view.symbols@.len()
    &&& forall|q: usize| q < view.symbols@.len() ==> sl.contains(q)
    &&& forall|i: int, j: int|
        0 <= i < j < sl.len() ==> (view.sym_addr(sl[i] as int) < view.sym_addr(sl[j] as int) || (
        view.sym_addr(sl[i] as int) == view.sym_addr(sl[j] as int) && sl[i] < sl[j]))
}

/// Some entry of `sl` has address `a`.
pub open spec fn has_address(view: &Explorer, sl: Seq<usize>, a: u64) -> bool {
    exists|k: int| 0 <= k < sl.len() && view.sym_addr(sl[k] as int) == a
}

/// `x` is the least address in `sl` above `a`.
pub open spec fn is_next_above(view: &Explorer, sl: Seq<usize>, a: u64, x: u64) -> bool {
    &&& has_address(view, sl, x)
    &&& a < x
    &&& forall|m: int|
        0 <= m < sl.len() && a < view.sym_addr(sl[m] as int) ==> x <= view.sym_addr(sl[m] as int)
}

/// The least address in `sl` strictly above `a`, if any.
pub open spec fn next_above(view: &Explorer, sl: Seq<usize>, a: u64) -> Option<u64> {
    if exists|x: u64| is_next_above(view, sl, a, x) {
        Some(choose|x: u64| is_next_above(view, sl, a, x))
    } else {
        None
    }
}

/// The extent of the section that `sym` belongs to, where that section is
/// known and holds the symbol's address: `(start, end)`.
pub open spec fn home_extent(view: &Explorer, sym: &Symbol) -> Option<(int, int)> {
    match sym.section {
        SymbolSection::Section(idx) => match view.section_pos(idx) {
            Some(k) => {
                let s = view.sections@[k];
                if s.address <= sym.address && sym.address <= s.end() {
                    Some((s.address as int, s.end()))
                } else {
                    None
                }
            },
            None => None,
        },
        _ => None,
    }
}

/// The byte length of `sym`.
///
/// Formats other than Mach-O record it. Mach-O records none: the length runs
/// to the next strictly greater symbol address, bounded by the end of the
/// symbol's section; with no later symbol it runs to the section's end, and
/// with no known section it is the recorded size. A Mach-O symbol whose
/// address is not in `sl` is not found.
pub open spec fn size_spec(view: &Explorer, sl: Seq<usize>, sym: &Symbol) -> Result<u64, ErrorKind> {
    let a = sym.address;
    if view.format != BinaryFormat::MachO {
        Ok(sym.size)
    } else if !has_address(view, sl, a) {
        Err(ErrorKind::NotFound)
    } else {
        match home_extent(view, sym) {
            Some((_, end)) => match next_above(view, sl, a) {
                Some(x) if x <= end => Ok((x - a) as u64),
                _ => Ok((end - a) as u64),
            },
            None => match next_above(view, sl, a) {
                Some(x) => Ok((x - a) as u64),
                None => Ok(sym.size),
            },
        }
    }
}

pub open spec fn pair_le(a: (u64, usize), b: (u64, usize)) -> bool {
    a.0 < b.0 || (a.0 == b.0 && a.1 <= b.1)
}

/// Relies on `<[T]>::sort`: the same elements, ascending in the
/// lexicographic order that std gives tuples of integers.
#[verifier::external_body]
fn sort_pairs(v: &mut Vec<(u64, usize)>)
    ensures
        final(v)@.to_multiset() == old(v)@.to_multiset(),
        forall|i: int, j: int|
            0 <= i < j < final(v)@.len() ==> pair_le(final(v)@[i], final(v)@[j]),
{
    v.sort();
}

/// Sorts `(key, tag)` pairs whose tags are pairwise distinct, and proves the
/// result strictly ascending and a rearrangement of the input.
pub(crate) fn sort_distinct_pairs(v: &mut Vec<(u64, usize)>)
    requires
        old(v)@.no_duplicates(),
    ensures
        final(v)@.len() == old(v)@.len(),
        forall|e: (u64, usize)| final(v)@.contains(e) <==> old(v)@.contains(e),
        forall|i: int, j: int|
            0 <= i < j < final(v)@.len() ==> pair_le(final(v)@[i], final(v)@[j]) && final(v)@[i]
                != final(v)@[j],
{
    broadcast use vstd::seq_lib::group_to_multiset_ensures;

    let ghost before = v@;
    sort_pairs(v);
    proof {
        vstd::seq_lib::to_multiset_len(before);
        vstd::seq_lib::to_multiset_len(v@);
        before.lemma_multiset_has_no_duplicates();
        assert forall|e: (u64, usize)| v@.contains(e) <==> before.contains(e) by {
            vstd::seq_lib::to_multiset_contains(v@, e);
            vstd::seq_lib::to_multiset_contains(before, e);
        }
        assert forall|e: (u64, usize)|
            v@.to_multiset().contains(e) implies v@.to_multiset().count(e) == 1 by {
            assert(before.to_multiset().contains(e));
        }
        v@.lemma_multiset_has_no_duplicates_conv();
    }
}

/// Builds the address-sorted symbol list: every position of `view.symbols`,
/// by address, ties in table order.
pub fn build_symlist(view: &Explorer) -> (r: Vec<usize>)
    ensures
        symlist_ok(view, r@),
{
    let n = view.symbols.len();
    let mut keys: Vec<(u64, usize)> = Vec::new();
    let mut p: usize = 0;
    while p < n
        invariant
            n == view.symbols@.len(),
            p <= n,
            keys@.len() == p,
            forall|i: int| 0 <= i < p ==> keys@[i] == (view.sym_addr(i), i as usize),
        decreases n - p,
    {
        keys.push((view.symbols[p].address, p));
        p = p + 1;
    }
    assert(keys@.no_duplicates()) by {
        assert forall|i: int, j: int|
            0 <= i < keys@.len() && 0 <= j < keys@.len() && i != j implies keys@[i]
            != keys@[j] by {
            assert(keys@[i].1 == i && keys@[j].1 == j);
        }
    }
    let ghost before = keys@;
    sort_distinct_pairs(&mut keys);
    assert forall|k: int| 0 <= k < keys@.len() implies keys@[k].1 < n && keys@[k].0
        == view.sym_addr(keys@[k].1 as int) by {
        assert(keys@.contains(keys@[k]));
        assert(before.contains(keys@[k]));
    }
    let mut out: Vec<usize> = Vec::new();
    let mut k: usize = 0;
    while k < keys.len()
        invariant
            n == view.symbols@.len(),
            k <= keys@.len(),
            out@.len() == k,
            forall|i: int| 0 <= i < k ==> out@[i] == keys@[i].1,
            keys@.len() == before.len(),
            forall|e: (u64, usize)| keys@.contains(e) <==> before.contains(e),
            forall|i: int, j: int|
                0 <= i < j < keys@.len() ==> pair_le(keys@[i], keys@[j]) && keys@[i] != keys@[j],
            forall|i: int|
                0 <= i < keys@.len() ==> keys@[i].1 < n && keys@[i].0 == view.sym_addr(
                    keys@[i].1 as int,
                ),
            before.len() == n,
            forall|i: int| 0 <= i < n ==> before[i] == (view.sym_addr(i), i as usize),
        decreases keys@.len() - k,
    {
        out.push(keys[k].1);
        k = k + 1;
    }
    assert forall|q: usize| q < view.symbols@.len() implies out@.contains(q) by {
        let qi = q as int;
        assert(before[qi] == (view.sym_addr(qi), q));
        assert(before.contains(before[qi]));
        assert(keys@.contains(before[qi]));
        let w = choose|w: int| 0 <= w < keys@.len() && keys@[w] == before[qi];
        assert(out@[w] == q);
    }
    assert forall|i: int, j: int| 0 <= i < j < out@.len() implies (view.sym_addr(out@[i] as int)
        < view.sym_addr(out@[j] as int) || (view.sym_addr(out@[i] as int) == view.sym_addr(
        out@[j] as int) && out@[i] < out@[j])) by {
        assert(pair_le(keys@[i], keys@[j]));
        assert(keys@[i] != keys@[j]);
    }
    out
}

/// Sorts the dynamic relocations by the address they apply to, keeping the
/// file's order among relocations at one address.
pub fn build_dyn_rela(view: &Explorer) -> (r: Vec<DynReloc>)
    ensures
        r@.len() == view.dyn_relocs@.len(),
        forall|i: int, j: int| 0 <= i < j < r@.len() ==> r@[i].address <= r@[j].address,
        exists|perm: Seq<usize>|
            {
                &&& perm.len() == r@.len()
                &&& perm.no_duplicates()
                &&& forall|k: int|
                    0 <= k < perm.len() ==> perm[k] < view.dyn_relocs@.len() && r@[k]
                        == view.dyn_relocs@[perm[k] as int]
                &&& forall|i: int, j: int|
                    0 <= i < j < r@.len() && r@[i].address == r@[j].address ==> perm[i]
                        < perm[j]
            },
{
    let n = view.dyn_relocs.len();
    let mut keys: Vec<(u64, usize)> = Vec::new();
    let mut p: usize = 0;
    while p < n
        invariant
            n == view.dyn_relocs@.len(),
            p <= n,
            keys@.len() == p,
            forall|i: int| 0 <= i < p ==> keys@[i] == (view.dyn_relocs@[i].address, i as usize),
        decreases n - p,
    {
        keys.push((view.dyn_relocs[p].address, p));
        p = p + 1;
    }
    assert(keys@.no_duplicates()) by {
        assert forall|i: int, j: int|
            0 <= i < keys@.len() && 0 <= j < keys@.len() && i != j implies keys@[i]
            != keys@[j] by {
            assert(keys@[i].1 == i && keys@[j].1 == j);
        }
    }
    let ghost before = keys@;
    sort_distinct_pairs(&mut keys);
    assert forall|k: int| 0 <= k < keys@.len() implies keys@[k].1 < n && keys@[k].0
        == view.dyn_relocs@[keys@[k].1 as int].address by {
        assert(keys@.contains(keys@[k]));
        assert(before.contains(keys@[k]));
    }
    let mut out: Vec<DynReloc> = Vec::new();
    let mut k: usize = 0;
    while k < keys.len()
        invariant
            n == view.dyn_relocs@.len(),
            k <= keys@.len(),
            out@.len() == k,
            forall|i: int|
                0 <= i < keys@.len() ==> keys@[i].1 < n && keys@[i].0
                    == view.dyn_relocs@[keys@[i].1 as int].address,
            forall|i: int| 0 <= i < k ==> out@[i] == view.dyn_relocs@[keys@[i].1 as int],
            forall|i: int, j: int|
                0 <= i < j < keys@.len() ==> pair_le(keys@[i], keys@[j]) && keys@[i] != keys@[j],
        decreases keys@.len() - k,
    {
        out.push(view.dyn_relocs[keys[k].1]);
        k = k + 1;
    }
    let ghost perm = keys@.map_values(|e: (u64, usize)| e.1);
    assert(perm.no_duplicates()) by {
        assert forall|i: int, j: int|
            0 <= i < perm.len() && 0 <= j < perm.len() && i != j implies perm[i] != perm[j] by {
            if i < j {
                assert(pair_le(keys@[i], keys@[j]));
                assert(keys@[i] != keys@[j]);
            } else {
                assert(pair_le(keys@[j], keys@[i]));
                assert(keys@[j] != keys@[i]);
            }
        }
    }
    assert forall|i: int, j: int| 0 <= i < j < out@.len() implies out@[i].address
        <= out@[j].address && (out@[i].address == out@[j].address ==> perm[i] < perm[j]) by {
        assert(pair_le(keys@[i], keys@[j]));
        assert(keys@[i] != keys@[j]);
    }
    assert forall|k: int| 0 <= k < perm.len() implies perm[k] < view.dyn_relocs@.len()
        && out@[k] == view.dyn_relocs@[perm[k] as int] by {}
    out
}

/// Position in `sl` of some symbol at address `a`.
pub fn search_address(view: &Explorer, sl: &[usize], a: u64) -> (r: Option<usize>)
    requires
        symlist_sorted(view, sl@),
    ensures
        match r {
            Some(k) => k < sl@.len() && view.sym_addr(sl@[k as int] as int) == a,
            None => !has_address(view, sl@, a),
        },
{
    let mut lo: usize = 0;
    let mut hi: usize = sl.len();
    while lo < hi
        invariant
            symlist_sorted(view, sl@),
            lo <= hi <= sl@.len(),
            forall|m: int| 0 <= m < lo ==> view.sym_addr(sl@[m] as int) < a,
            forall|m: int| hi <= m < sl@.len() ==> view.sym_addr(sl@[m] as int) > a,
        decreases hi - lo,
    {
        let mid = lo + (hi - lo) / 2;
        let x = view.symbols[sl[mid]].address;
        if x == a {
            return Some(mid);
        } else if x < a {
            lo = mid + 1;
        } else {
            hi = mid;
        }
    }
    None
}

/// Position in `sl` of the first symbol whose address is above `a`.
pub fn first_above(view: &Explorer, sl: &[usize], a: u64) -> (r: usize)
    requires
        symlist_sorted(view, sl@),
    ensures
        r <= sl@.len(),
        forall|m: int| 0 <= m < r ==> view.sym_addr(sl@[m] as int) <= a,
        forall|m: int| r <= m < sl@.len() ==> view.sym_addr(sl@[m] as int) > a,
{
    let mut lo: usize = 0;
    let mut hi: usize = sl.len();
    while lo < hi
        invariant
            symlist_sorted(view, sl@),
            lo <= hi <= sl@.len(),
            forall|m: int| 0 <= m < lo ==> view.sym_addr(sl@[m] as int) <= a,
            forall|m: int| hi <= m < sl@.len() ==> view.sym_addr(sl@[m] as int) > a,
        decreases hi - lo,
    {
        let mid = lo + (hi - lo) / 2;
        if view.symbols[sl[mid]].address <= a {
            lo = mid + 1;
        } else {
            hi = mid;
        }
    }
    lo
}

/// The least address in `sl` above `a`, computed.
fn next_address(view: &Explorer, sl: &[usize], a: u64) -> (r: Option<u64>)
    requires
        symlist_sorted(view, sl@),
    ensures
        r == next_above(view, sl@, a),
{
    let u = first_above(view, sl, a);
    if u < sl.len() {
        let x = view.symbols[sl[u]].address;
        assert(is_next_above(view, sl@, a, x));
        let ghost c = choose|c: u64| is_next_above(view, sl@, a, c);
        assert(c == x) by {
            assert(is_next_above(view, sl@, a, c));
        }
        Some(x)
    } else {
        assert forall|x: u64| !is_next_above(view, sl@, a, x) by {
            if has_address(view, sl@, x) && a < x {
                let k = choose|k: int| 0 <= k < sl@.len() && view.sym_addr(sl@[k] as int) == x;
            }
        }
        None
    }
}

impl Explorer {
    /// The kind code of the symbol at position `pos`.
    pub fn symbol_kind(&self, pos: usize) -> (r: char)
        requires
            pos < self.symbols@.len(),
        ensures
            r == kind_code(self, &self.symbols@[pos as int]),
    {
        let sym = &self.symbols[pos];
        let c = match sym.section {
            SymbolSection::Undefined => 'U',
            SymbolSection::Absolute => 'A',
            SymbolSection::Common => 'C',
            SymbolSection::Section(idx) => match self.find_section(idx) {
                Some(k) => match self.sections[k].kind {
                    SectionKind::Text => 't',
                    SectionKind::Data | SectionKind::Tls | SectionKind::TlsVariables => 'd',
                    SectionKind::ReadOnlyData | SectionKind::ReadOnlyString => 'r',
                    SectionKind::UninitializedData | SectionKind::UninitializedTls => 'b',
                    SectionKind::Common => 'C',
                    _ => '?',
                },
                None => '?',
            },
            _ => '?',
        };
        if sym.is_global {
            match c {
                't' => 'T',
                'd' => 'D',
                'r' => 'R',
                'b' => 'B',
                _ => c,
            }
        } else {
            c
        }
    }

    /// The byte length of the symbol at position `pos`; `sl` is the
    /// address-sorted symbol list.
    pub fn symbol_size(&self, sl: &[usize], pos: usize) -> (r: Result<u64, ErrorKind>)
        requires
            pos < self.symbols@.len(),
            symlist_sorted(self, sl@),
        ensures
            r == size_spec(self, sl@, &self.symbols@[pos as int]),
    {
        let sym = &self.symbols[pos];
        if self.format != BinaryFormat::MachO {
            return Ok(sym.size);
        }
        let a = sym.address;
        if search_address(self, sl, a).is_none() {
            return Err(ErrorKind::NotFound);
        }
        let next = next_address(self, sl, a);
        let home: Option<u128> = match sym.section {
            SymbolSection::Section(idx) => match self.find_section(idx) {
                Some(k) => {
                    let s = &self.sections[k];
                    let end = s.address as u128 + s.size as u128;
                    if s.address <= a && a as u128 <= end {
                        Some(end)
                    } else {
                        None
                    }
                },
                None => None,
            },
            _ => None,
        };
        match home {
            Some(end) => match next {
                Some(x) if x as u128 <= end => Ok(x - a),
                _ => Ok((end - a as u128) as u64),
            },
            None => match next {
                Some(x) => Ok(x - a),
                None => Ok(sym.size),
            },
        }
    }
}

/// Every symbol can be found in the symbol list by its address: the list
/// holds it, so a search by that address lands on it or on a symbol at the
/// same address.
pub proof fn lemma_symlist_finds_every_symbol(view: &Explorer, sl: Seq<usize>, pos: usize)
    requires
        symlist_ok(view, sl),
        pos < view.symbols@.len(),
    ensures
        sl.contains(pos),
        has_address(view, sl, view.sym_addr(pos as int)),
{
    assert(sl.contains(pos));
    let k = choose|k: int| 0 <= k < sl.len() && sl[k] == pos;
    assert(view.sym_addr(sl[k] as int) == view.sym_addr(pos as int));
}

/// A symbol that lies inside its section gets a size that ends inside that
/// section (for formats that record sizes, where the recorded size does).
pub proof fn lemma_size_within_section(view: &Explorer, sl: Seq<usize>, pos: usize)
    requires
        pos < view.symbols@.len(),
        home_extent(view, &view.symbols@[pos as int]) is Some,
        view.format == BinaryFormat::MachO || view.symbols@[pos as int].address
            + view.symbols@[pos as int].size <= home_extent(
            view,
            &view.symbols@[pos as int],
        )->Some_0.1,
    ensures
        size_spec(view, sl, &view.symbols@[pos as int]) is Ok ==> view.symbols@[pos as int].address
            + size_spec(view, sl, &view.symbols@[pos as int])->Ok_0 <= home_extent(
            view,
            &view.symbols@[pos as int],
        )->Some_0.1,
{
}

/// On Mach-O, a symbol followed by another at a greater address, with no
/// symbol address strictly between the two, is as long as the gap, unless
/// its known section ends before the other symbol.
pub proof fn lemma_macho_size_is_gap(view: &Explorer, sl: Seq<usize>, p: usize, q: usize)
    requires
        view.format == BinaryFormat::MachO,
        symlist_ok(view, sl),
        p < view.symbols@.len(),
        q < view.symbols@.len(),
        view.sym_addr(p as int) < view.sym_addr(q as int),
        forall|k: int|
            0 <= k < view.symbols@.len() ==> !(view.sym_addr(p as int) < #[trigger] view.sym_addr(k)
                < view.sym_addr(q as int)),
        home_extent(view, &view.symbols@[p as int]) is Some ==> view.sym_addr(q as int)
            <= home_extent(view, &view.symbols@[p as int])->Some_0.1,
    ensures
        size_spec(view, sl, &view.symbols@[p as int]) == Ok::<u64, ErrorKind>(
            (view.sym_addr(q as int) - view.sym_addr(p as int)) as u64,
        ),
{
    let a = view.sym_addr(p as int);
    let x = view.sym_addr(q as int);
    lemma_symlist_finds_every_symbol(view, sl, p);
    assert(sl.contains(q));
    let kq = choose|k: int| 0 <= k < sl.len() && sl[k] == q;
    assert(view.sym_addr(sl[kq] as int) == x);
    assert(is_next_above(view, sl, a, x)) by {
        assert forall|m: int| 0 <= m < sl.len() && a < view.sym_addr(sl[m] as int) implies x
            <= view.sym_addr(sl[m] as int) by {
            assert(!(a < view.sym_addr(sl[m] as int) < x));
        }
    }
    let c = choose|c: u64| is_next_above(view, sl, a, c);
    assert(c == x) by {
        assert(is_next_above(view, sl, a, c));
        let kc = choose|k: int| 0 <= k < sl.len() && view.sym_addr(sl[k] as int) == c;
        assert(!(a < view.sym_addr(sl[kc] as int) < x));
    }
}

} // verus!
