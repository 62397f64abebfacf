use vstd::prelude::*;

verus! {

/// Container format of the target file.
#[derive(Clone, Copy, Debug, PartialEq, Eq, Structural)]
pub enum BinaryFormat {
    Elf,
    MachO,
    Coff,
    Pe,
    Wasm,
    Xcoff,
    Other,
}

/// Instruction set of the target file.
#[derive(Clone, Copy, Debug, PartialEq, Eq, Structural)]
pub enum Architecture {
    X86_64,
    Aarch64,
    Riscv64,
    Wasm32,
    Wasm64,
    Other,
}

/// What a section holds.
#[derive(Clone, Copy, Debug, PartialEq, Eq, Structural)]
pub enum SectionKind {
    Unknown,
    Text,
    Data,
    ReadOnlyData,
    ReadOnlyDataWithRel,
    ReadOnlyString,
    UninitializedData,
    Common,
    Tls,
    UninitializedTls,
    TlsVariables,
    OtherString,
    Other,
    Debug,
    DebugString,
    Linker,
    Note,
    Metadata,
    Elf(u32),
}

/// What a symbol names.
#[derive(Clone, Copy, Debug, PartialEq, Eq, Structural)]
pub enum SymbolKind {
    Unknown,
    Text,
    Data,
    Section,
    File,
    Label,
    Tls,
}

/// Where a symbol is defined.
#[derive(Clone, Copy, Debug, PartialEq, Eq, Structural)]
pub enum SymbolSection {
    Unknown,
    /// Not attached to any section.
    NoSection,
    Undefined,
    Absolute,
    Common,
    /// Defined in the section with this index.
    Section(usize),
}

/// One entry of the target's symbol table.
pub struct Symbol {
    /// Index of the symbol in the symbol table.
    pub index: usize,
    /// The name, or `None` where it is not valid UTF-8.
    pub name: Option<String>,
    pub address: u64,
    /// Recorded size; zero where the format does not record one.
    pub size: u64,
    pub kind: SymbolKind,
    pub section: SymbolSection,
    pub is_global: bool,
}

/// One section of the target.
pub struct Section {
    pub index: usize,
    pub name: Option<String>,
    pub address: u64,
    pub size: u64,
    pub align: u64,
    pub kind: SectionKind,
}

/// What a dynamic relocation writes.
#[derive(Clone, Copy, Debug, PartialEq, Eq, Structural)]
pub enum RelocationTarget {
    /// The address of the symbol with this index.
    Symbol(usize),
    /// The addend itself, as an absolute address.
    Absolute,
    Other,
}

/// A dynamic relocation applied at `address`.
#[derive(Clone, Copy, Debug, PartialEq, Eq, Structural)]
pub struct DynReloc {
    pub address: u64,
    pub target: RelocationTarget,
    pub addend: i64,
}

/// An entry of the address-to-symbol map: a named, defined symbol.
pub struct MapEntry {
    pub address: u64,
    pub name: String,
}

/// A parsed target file, as plain values.
///
/// `symbols` lists the symbol table in table order, `symbol_map` the named
/// definitions by strictly increasing address, and `dyn_relocs` the dynamic
/// relocations in the order the file gives them.
pub struct Explorer {
    pub format: BinaryFormat,
    pub arch: Architecture,
    pub sections: Vec<Section>,
    pub symbols: Vec<Symbol>,
    pub dyn_relocs: Vec<DynReloc>,
    pub symbol_map: Vec<MapEntry>,
}

impl Section {
    /// One past the last address of the section.
    pub open spec fn end(&self) -> int {
        self.address + self.size
    }
}

impl Explorer {
    pub open spec fn sym_addr(&self, pos: int) -> u64 {
        self.symbols@[pos].address
    }

    /// Symbol indices increase along the table, and the symbol map is
    /// strictly sorted by address.
    pub open spec fn wf(&self) -> bool {
        &&& forall|i: int, j: int|
            0 <= i < j < self.symbols@.len() ==> self.symbols@[i].index < self.symbols@[j].index
        &&& forall|i: int, j: int|
            0 <= i < j < self.symbol_map@.len() ==> self.symbol_map@[i].address
                < self.symbol_map@[j].address
    }

    /// The first section with index `idx`, as a position in `sections`.
    pub open spec fn section_pos(&self, idx: usize) -> Option<int> {
        if exists|k: int| self.is_first_section(idx, k) {
            Some(choose|k: int| self.is_first_section(idx, k))
        } else {
            None
        }
    }

    pub open spec fn is_first_section(&self, idx: usize, k: int) -> bool {
        &&& 0 <= k < self.sections@.len()
        &&& self.sections@[k].index == idx
        &&& forall|m: int| 0 <= m < k ==> self.sections@[m].index != idx
    }

    /// Finds the section with index `idx`.
    pub fn find_section(&self, idx: usize) -> (r: Option<usize>)
        ensures
            match r {
                Some(k) => self.section_pos(idx) == Some(k as int),
                None => self.section_pos(idx) is None,
            },
    {
        let mut k: usize = 0;
        while k < self.sections.len()
            invariant
                k <= self.sections@.len(),
                forall|m: int| 0 <= m < k ==> self.sections@[m].index != idx,
            decreases self.sections@.len() - k,
        {
            if self.sections[k].index == idx {
                proof {
                    assert(self.is_first_section(idx, k as int));
                    let c = choose|c: int| self.is_first_section(idx, c);
                    assert(c == k) by {
                        if c < k {
                        } else if c > k {
                            assert(self.sections@[k as int].index == idx);
                        }
                    }
                }
                return Some(k);
            }
            k = k + 1;
        }
        None
    }

    /// Finds the symbol with table index `idx`.
    pub fn find_symbol(&self, idx: usize) -> (r: Option<usize>)
        requires
            self.wf(),
        ensures
            match r {
                Some(k) => k < self.symbols@.len() && self.symbols@[k as int].index == idx,
                None => forall|m: int|
                    0 <= m < self.symbols@.len() ==> self.symbols@[m].index != idx,
            },
    {
        let mut lo: usize = 0;
        let mut hi: usize = self.symbols.len();
        while lo < hi
            invariant
                self.wf(),
                lo <= hi <= self.symbols@.len(),
                forall|m: int| 0 <= m < lo ==> self.symbols@[m].index < idx,
                forall|m: int| hi <= m < self.symbols@.len() ==> self.symbols@[m].index > idx,
            decreases hi - lo,
        {
            let mid = lo + (hi - lo) / 2;
            let i = self.symbols[mid].index;
            if i == idx {
                return Some(mid);
            } else if i < idx {
                lo = mid + 1;
            } else {
                hi = mid;
            }
        }
        None
    }
}

} // verus!
