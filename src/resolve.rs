use vstd::prelude::*;
use vstd::string::StringExecFns;
use crate::model::{BinaryFormat, DynReloc, Explorer, RelocationTarget, Section};

verus! {

/// Name of the section that holds the GOT, per format.
pub open spec fn got_section_name(format: BinaryFormat) -> Option<Seq<char>> {
    match format {
        BinaryFormat::Elf => Some(".got"@),
        BinaryFormat::MachO => Some("__got"@),
        _ => None,
    }
}

pub open spec fn has_name(s: &Section, name: Seq<char>) -> bool {
    s.name matches Some(n) && n@ == name
}

/// `k` is the first section named `name`.
pub open spec fn is_first_named(view: &Explorer, name: Seq<char>, k: int) -> bool {
    &&& 0 <= k < view.sections@.len()
    &&& has_name(&view.sections@[k], name)
    &&& forall|m: int| 0 <= m < k ==> !has_name(&view.sections@[m], name)
}

pub open spec fn named_section(view: &Explorer, name: Seq<char>) -> Option<int> {
    if exists|k: int| is_first_named(view, name, k) {
        Some(choose|k: int| is_first_named(view, name, k))
    } else {
        None
    }
}

/// Position in the symbol map of the entry at address `a`.
pub open spec fn map_pos(view: &Explorer, a: u64) -> Option<int> {
    if exists|k: int| 0 <= k < view.symbol_map@.len() && view.symbol_map@[k].address == a {
        Some(choose|k: int| 0 <= k < view.symbol_map@.len() && view.symbol_map@[k].address == a)
    } else {
        None
    }
}

/// Position of the symbol with table index `idx`.
pub open spec fn sym_pos(view: &Explorer, idx: usize) -> Option<int> {
    if exists|p: int| 0 <= p < view.symbols@.len() && view.symbols@[p].index == idx {
        Some(choose|p: int| 0 <= p < view.symbols@.len() && view.symbols@[p].index == idx)
    } else {
        None
    }
}

pub open spec fn relocs_sorted(rel: Seq<DynReloc>) -> bool {
    forall|i: int, j: int| 0 <= i < j < rel.len() ==> rel[i].address <= rel[j].address
}

/// `u` splits `rel` into the relocations below `a` and those at or above it.
pub open spec fn is_lower_bound(rel: Seq<DynReloc>, a: u64, u: int) -> bool {
    &&& 0 <= u <= rel.len()
    &&& forall|m: int| 0 <= m < u ==> rel[m].address < a
    &&& forall|m: int| u <= m < rel.len() ==> rel[m].address >= a
}

pub open spec fn lower_bound(rel: Seq<DynReloc>, a: u64) -> int {
    choose|u: int| is_lower_bound(rel, a, u)
}

/// What a GOT slot at `a` resolves to: the first relocation at or above `a`,
/// if it applies within eight bytes of `a`, read through its target.
pub open spec fn resolve_slot(view: &Explorer, rel: Seq<DynReloc>, a: u64) -> Option<
    (Seq<char>, u64),
> {
    let j = lower_bound(rel, a);
    let limit = if a as int + 8 > u64::MAX {
        u64::MAX as int
    } else {
        a as int + 8
    };
    if j < 0 || j >= rel.len() || rel[j].address >= limit {
        None
    } else {
        match rel[j].target {
            RelocationTarget::Symbol(idx) => match sym_pos(view, idx) {
                Some(p) => match view.symbols@[p].name {
                    Some(n) => Some((n@, view.symbols@[p].address)),
                    None => None,
                },
                None => None,
            },
            RelocationTarget::Absolute => if 0 <= rel[j].addend {
                match map_pos(view, rel[j].addend as u64) {
                    Some(k) => Some((view.symbol_map@[k].name@, view.symbol_map@[k].address)),
                    None => None,
                }
            } else {
                None
            },
            RelocationTarget::Other => None,
        }
    }
}

/// The name and canonical address that address `a` resolves to: a direct
/// hit in the symbol map, or else a GOT slot read through its relocation.
pub open spec fn resolve_spec(view: &Explorer, rel: Seq<DynReloc>, a: u64) -> Option<
    (Seq<char>, u64),
> {
    match map_pos(view, a) {
        Some(k) => Some((view.symbol_map@[k].name@, a)),
        None => match got_section_name(view.format) {
            Some(g) => match named_section(view, g) {
                Some(s) => if view.sections@[s].address <= a && a < view.sections@[s].end() {
                    resolve_slot(view, rel, a)
                } else {
                    None
                },
                None => None,
            },
            None => None,
        },
    }
}

/// Finds the entry of the symbol map at address `a`.
pub fn map_lookup(view: &Explorer, a: u64) -> (r: Option<usize>)
    requires
        view.wf(),
    ensures
        match r {
            Some(k) => map_pos(view, a) == Some(k as int),
            None => map_pos(view, a) is None,
        },
{
    let mut lo: usize = 0;
    let mut hi: usize = view.symbol_map.len();
    while lo < hi
        invariant
            view.wf(),
            lo <= hi <= view.symbol_map@.len(),
            forall|m: int| 0 <= m < lo ==> view.symbol_map@[m].address < a,
            forall|m: int| hi <= m < view.symbol_map@.len() ==> view.symbol_map@[m].address > a,
        decreases hi - lo,
    {
        let mid = lo + (hi - lo) / 2;
        let x = view.symbol_map[mid].address;
        if x == a {
            let ghost c = choose|c: int|
                0 <= c < view.symbol_map@.len() && view.symbol_map@[c].address == a;
            assert(c == mid as int) by {
                if c < mid {
                } else if c > mid {
                }
            }
            return Some(mid);
        } else if x < a {
            lo = mid + 1;
        } else {
            hi = mid;
        }
    }
    None
}

fn first_named(view: &Explorer, name: &String) -> (r: Option<usize>)
    ensures
        match r {
            Some(k) => named_section(view, name@) == Some(k as int),
            None => named_section(view, name@) is None,
        },
{
    let mut k: usize = 0;
    while k < view.sections.len()
        invariant
            k <= view.sections@.len(),
            forall|m: int| 0 <= m < k ==> !has_name(&view.sections@[m], name@),
        decreases view.sections@.len() - k,
    {
        let hit = match &view.sections[k].name {
            Some(n) => *n == *name,
            None => false,
        };
        if hit {
            assert(is_first_named(view, name@, k as int));
            let ghost c = choose|c: int| is_first_named(view, name@, c);
            assert(c == k as int) by {
                if c < k {
                } else if c > k {
                    assert(has_name(&view.sections@[k as int], name@));
                }
            }
            return Some(k);
        }
        k = k + 1;
    }
    assert forall|c: int| !is_first_named(view, name@, c) by {}
    None
}

fn reloc_lower_bound(rel: &[DynReloc], a: u64) -> (r: usize)
    requires
        relocs_sorted(rel@),
    ensures
        r as int == lower_bound(rel@, a),
{
    let mut lo: usize = 0;
    let mut hi: usize = rel.len();
    while lo < hi
        invariant
            relocs_sorted(rel@),
            lo <= hi <= rel@.len(),
            forall|m: int| 0 <= m < lo ==> rel@[m].address < a,
            forall|m: int| hi <= m < rel@.len() ==> rel@[m].address >= a,
        decreases hi - lo,
    {
        let mid = lo + (hi - lo) / 2;
        if rel[mid].address < a {
            lo = mid + 1;
        } else {
            hi = mid;
        }
    }
    assert(is_lower_bound(rel@, a, lo as int));
    let ghost c = choose|c: int| is_lower_bound(rel@, a, c);
    assert(c == lo as int) by {
        if c < lo {
            assert(rel@[c].address >= a);
        } else if c > lo {
            assert(rel@[lo as int].address < a);
        }
    }
    lo
}

fn find_symbol_pos(view: &Explorer, idx: usize) -> (r: Option<usize>)
    requires
        view.wf(),
    ensures
        match r {
            Some(p) => sym_pos(view, idx) == Some(p as int),
            None => sym_pos(view, idx) is None,
        },
{
    let r = view.find_symbol(idx);
    match r {
        Some(p) => {
            let ghost c = choose|c: int|
                0 <= c < view.symbols@.len() && view.symbols@[c].index == idx;
            assert(c == p as int) by {
                if c < p {
                } else if c > p {
                }
            }
        },
        None => {},
    }
    r
}

/// Resolves address `a` to a symbol name and the symbol's own address.
///
/// `rel` is the list of dynamic relocations sorted by address.
pub fn query_symbol_by_addr(view: &Explorer, rel: &[DynReloc], a: u64) -> (r: Option<
    (String, u64),
>)
    requires
        view.wf(),
        relocs_sorted(rel@),
    ensures
        match r {
            Some((n, x)) => resolve_spec(view, rel@, a) == Some((n@, x)),
            None => resolve_spec(view, rel@, a) is None,
        },
{
    if let Some(k) = map_lookup(view, a) {
        return Some((view.symbol_map[k].name.clone(), a));
    }
    let got = match view.format {
        BinaryFormat::Elf => String::from_str(".got"),
        BinaryFormat::MachO => String::from_str("__got"),
        _ => {
            return None;
        },
    };
    let s = match first_named(view, &got) {
        Some(s) => s,
        None => {
            return None;
        },
    };
    let section = &view.sections[s];
    let end = section.address as u128 + section.size as u128;
    if !(section.address <= a && (a as u128) < end) {
        return None;
    }
    let j = reloc_lower_bound(rel, a);
    let limit = a.saturating_add(8);
    if j >= rel.len() || rel[j].address >= limit {
        return None;
    }
    let rela = rel[j];
    match rela.target {
        RelocationTarget::Symbol(idx) => match find_symbol_pos(view, idx) {
            Some(p) => match &view.symbols[p].name {
                Some(n) => Some((n.clone(), view.symbols[p].address)),
                None => None,
            },
            None => None,
        },
        RelocationTarget::Absolute => {
            if rela.addend < 0 {
                return None;
            }
            match map_lookup(view, rela.addend as u64) {
                Some(k) => Some((view.symbol_map[k].name.clone(), view.symbol_map[k].address)),
                None => None,
            }
        },
        RelocationTarget::Other => None,
    }
}

/// Every address the resolver hands back is the address of an entry of the
/// symbol map, or the address of the symbol that a dynamic relocation in the
/// GOT targets.
pub proof fn lemma_resolved_address_origin(view: &Explorer, rel: Seq<DynReloc>, a: u64)
    requires
        resolve_spec(view, rel, a) is Some,
    ensures
        ({
            let x = resolve_spec(view, rel, a)->Some_0.1;
            (exists|k: int| 0 <= k < view.symbol_map@.len() && view.symbol_map@[k].address == x)
                || (exists|j: int, p: int|
                0 <= j < rel.len() && 0 <= p < view.symbols@.len() && rel[j].target
                    == RelocationTarget::Symbol(view.symbols@[p].index)
                    && view.symbols@[p].address == x)
        }),
{
    match map_pos(view, a) {
        Some(k) => {
            assert(0 <= k < view.symbol_map@.len() && view.symbol_map@[k].address == a);
        },
        None => {
            let j = lower_bound(rel, a);
            match rel[j].target {
                RelocationTarget::Symbol(idx) => {
                    let p = sym_pos(view, idx)->Some_0;
                    assert(rel[j].target == RelocationTarget::Symbol(view.symbols@[p].index));
                },
                RelocationTarget::Absolute => {
                    let k = map_pos(view, rel[j].addend as u64)->Some_0;
                    assert(0 <= k < view.symbol_map@.len());
                },
                _ => {},
            }
        },
    }
}

/// An address inside the GOT that has no symbol of its own resolves,
/// through the first relocation applied there, to the name and the address
/// of the symbol that relocation targets: the callee, not the slot.
pub proof fn lemma_got_slot_resolves_to_callee(
    view: &Explorer,
    rel: Seq<DynReloc>,
    a: u64,
    s: int,
    j: int,
    p: int,
)
    requires
        view.wf(),
        relocs_sorted(rel),
        map_pos(view, a) is None,
        got_section_name(view.format) is Some,
        named_section(view, got_section_name(view.format)->Some_0) == Some(s),
        view.sections@[s].address <= a < view.sections@[s].end(),
        a < u64::MAX,
        0 <= j < rel.len(),
        rel[j].address == a,
        forall|m: int| 0 <= m < j ==> rel[m].address < a,
        0 <= p < view.symbols@.len(),
        rel[j].target == RelocationTarget::Symbol(view.symbols@[p].index),
        view.symbols@[p].name is Some,
    ensures
        resolve_spec(view, rel, a) == Some(
            (view.symbols@[p].name->Some_0@, view.symbols@[p].address),
        ),
{
    assert(is_lower_bound(rel, a, j));
    let u = choose|u: int| is_lower_bound(rel, a, u);
    assert(u == j) by {
        if u < j {
            assert(rel[u].address < a);
        } else if u > j {
            assert(rel[j].address < a);
        }
    }
    let idx = view.symbols@[p].index;
    let c = choose|c: int| 0 <= c < view.symbols@.len() && view.symbols@[c].index == idx;
    assert(c == p) by {
        if c < p {
            assert(view.symbols@[c].index < view.symbols@[p].index);
        } else if c > p {
            assert(view.symbols@[p].index < view.symbols@[c].index);
        }
    }
}

} // verus!
