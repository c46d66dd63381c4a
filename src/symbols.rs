use crate::error::ToolError;
use vstd::prelude::*;

verus! {

/// What the dynamic symbol table records of one symbol.
#[derive(Debug, Clone, Copy, PartialEq, Eq, Structural)]
pub struct SymbolDescriptor {
    /// Module-relative virtual address.
    pub value: u64,
    pub size: u64,
    /// Binding and type.
    pub info: u8,
    /// Visibility.
    pub other: u8,
    /// Index of the section the symbol is defined in.
    pub section: usize,
}

/// One entry of a dynamic symbol table, with its name where the string table has one.
#[derive(Debug)]
pub struct DynamicSymbol {
    pub name: Option<String>,
    pub descriptor: SymbolDescriptor,
}

/// The view of an entry: its name as characters, and its descriptor.
pub open spec fn entry_view(d: DynamicSymbol) -> (Option<Seq<char>>, SymbolDescriptor) {
    (
        match d.name {
            Some(n) => Some(n@),
            None => None,
        },
        d.descriptor,
    )
}

/// The entries of the dynamic symbol table of an ELF image, in table order, or
/// `None` where the image does not parse.
pub uninterp spec fn elf_dynamic_symbols(bytes: Seq<u8>) -> Option<
    Seq<(Option<Seq<char>>, SymbolDescriptor)>,
>;

/// Whether an entry's name makes it a symbol: the reserved null entry has the empty name.
pub open spec fn is_symbol_name(name: Option<Seq<char>>) -> bool {
    name matches Some(n) && n.len() > 0
}

/// The name-to-descriptor map of a list of entries: entries without a name, or with
/// the empty name of the reserved null entry, are left out, and of entries that
/// share a name the last one counts.
pub open spec fn symbols_of(s: Seq<(Option<Seq<char>>, SymbolDescriptor)>) -> Map<
    Seq<char>,
    SymbolDescriptor,
>
    decreases s.len(),
{
    if s.len() == 0 {
        Map::empty()
    } else {
        let rest = symbols_of(s.drop_last());
        match s.last().0 {
            Some(n) => if n.len() > 0 {
                rest.insert(n, s.last().1)
            } else {
                rest
            },
            None => rest,
        }
    }
}

/// Relies on goblin's `Elf::parse`, which reads the dynamic symbol table and its
/// string table; each name is looked up with `Strtab::get_at`. The result depends
/// on the bytes alone.
#[verifier::external_body]
fn parse_dynamic_symbols(bytes: &[u8]) -> (r: Option<Vec<DynamicSymbol>>)
    ensures
        r matches Some(v) ==> elf_dynamic_symbols(bytes@) == Some(
            v@.map_values(|d: DynamicSymbol| entry_view(d)),
        ),
        r is None ==> elf_dynamic_symbols(bytes@) is None,
{
    let elf = goblin::elf::Elf::parse(bytes).ok()?;
    Some(elf.dynsyms.iter().map(|s| DynamicSymbol {
        name: elf.dynstrtab.get_at(s.st_name).map(|n| n.to_string()),
        descriptor: SymbolDescriptor {
            value: s.st_value,
            size: s.st_size,
            info: s.st_info,
            other: s.st_other,
            section: s.st_shndx,
        },
    }).collect())
}

/// Names of a binary's dynamic symbols, each mapped to its descriptor.
pub struct SymbolTable {
    entries: Vec<DynamicSymbol>,
}

impl View for SymbolTable {
    type V = Map<Seq<char>, SymbolDescriptor>;

    closed spec fn view(&self) -> Map<Seq<char>, SymbolDescriptor> {
        symbols_of(self.entries())
    }
}

impl SymbolTable {
    /// The entries the table was built from, in table order.
    pub closed spec fn entries(&self) -> Seq<(Option<Seq<char>>, SymbolDescriptor)> {
        self.entries@.map_values(|d: DynamicSymbol| entry_view(d))
    }
}

/// An entry at `i` whose name no later entry has is what the name maps to.
pub proof fn lemma_last_definition_counts(
    s: Seq<(Option<Seq<char>>, SymbolDescriptor)>,
    i: int,
    n: Seq<char>,
)
    requires
        0 <= i < s.len(),
        n.len() > 0,
        s[i].0 == Some(n),
        forall|k: int| i < k < s.len() ==> #[trigger] s[k].0 != Some(n),
    ensures
        symbols_of(s).contains_key(n),
        symbols_of(s)[n] == s[i].1,
    decreases s.len(),
{
    if i < s.len() - 1 {
        lemma_last_definition_counts(s.drop_last(), i, n);
        assert(s.last().0 != Some(n));
    }
}

/// A name that no entry has, and the empty name, are not in the map.
pub proof fn lemma_absent_name(s: Seq<(Option<Seq<char>>, SymbolDescriptor)>, n: Seq<char>)
    requires
        n.len() == 0 || forall|k: int| 0 <= k < s.len() ==> #[trigger] s[k].0 != Some(n),
    ensures
        !symbols_of(s).contains_key(n),
    decreases s.len(),
{
    if s.len() > 0 {
        lemma_absent_name(s.drop_last(), n);
        assert(n.len() == 0 || s.last().0 != Some(n));
    }
}

/// A list with no symbol name in it (empty, or holding only the reserved null
/// entry) gives the empty map.
pub proof fn lemma_no_named_entries(s: Seq<(Option<Seq<char>>, SymbolDescriptor)>)
    requires
        forall|k: int| 0 <= k < s.len() ==> !is_symbol_name(#[trigger] s[k].0),
    ensures
        symbols_of(s) == Map::<Seq<char>, SymbolDescriptor>::empty(),
    decreases s.len(),
{
    if s.len() > 0 {
        lemma_no_named_entries(s.drop_last());
        assert(!is_symbol_name(s.last().0));
    }
}

impl SymbolTable {
    /// The table of the given entries, in table order.
    pub fn from_symbols(entries: Vec<DynamicSymbol>) -> (r: SymbolTable)
        ensures
            r.entries() == entries@.map_values(|d: DynamicSymbol| entry_view(d)),
            r@ == symbols_of(r.entries()),
    {
        SymbolTable { entries }
    }

    /// The descriptor that `name` maps to.
    pub fn get(&self, name: &str) -> (r: Option<SymbolDescriptor>)
        ensures
            self@.contains_key(name@) ==> r == Some(self@[name@]),
            !self@.contains_key(name@) ==> r is None,
    {
        let ghost s = self.entries();
        if name.is_empty() {
            proof {
                lemma_absent_name(s, name@);
            }
            return None;
        }
        let key = name.to_owned();
        let mut j: usize = self.entries.len();
        while j > 0
            invariant
                j <= self.entries@.len(),
                key@ == name@,
                name@.len() > 0,
                s == self.entries@.map_values(|d: DynamicSymbol| entry_view(d)),
                forall|k: int| j <= k < s.len() ==> #[trigger] s[k].0 != Some(name@),
            decreases j,
        {
            j = j - 1;
            let entry = &self.entries[j];
            if let Some(n) = &entry.name {
                if *n == key {
                    proof {
                        assert(s[j as int].0 == Some(name@));
                        lemma_last_definition_counts(s, j as int, name@);
                    }
                    return Some(entry.descriptor);
                }
            }
            assert(s[j as int].0 != Some(name@));
        }
        proof {
            lemma_absent_name(s, name@);
        }
        None
    }

    /// The module-relative address of `name`, or `NotFound` where the table lacks it.
    pub fn value_of(&self, name: &str) -> (r: Result<u64, ToolError>)
        ensures
            self@.contains_key(name@) ==> r == Ok::<u64, ToolError>(self@[name@].value),
            !self@.contains_key(name@) ==> r == Err::<u64, ToolError>(ToolError::NotFound),
    {
        match self.get(name) {
            Some(d) => Ok(d.value),
            None => Err(ToolError::NotFound),
        }
    }

    /// The number of entries, named or not, the table was built from.
    pub fn len(&self) -> (r: usize)
        ensures
            r == self.entries().len(),
    {
        self.entries.len()
    }
}

/// The dynamic symbols of an ELF image, or `ParseError` where it does not parse.
pub fn parse_symbol_table(bytes: &[u8]) -> (r: Result<SymbolTable, ToolError>)
    ensures
        r matches Ok(t) ==> elf_dynamic_symbols(bytes@) == Some(t.entries()) && t@ == symbols_of(elf_dynamic_symbols(bytes@)->0),
        r is Err ==> r == Err::<SymbolTable, ToolError>(ToolError::ParseError)
            && elf_dynamic_symbols(bytes@) is None,
{
    match parse_dynamic_symbols(bytes) {
        Some(entries) => Ok(SymbolTable::from_symbols(entries)),
        None => Err(ToolError::ParseError),
    }
}

/// The dynamic symbols of an ELF image by name; empty where the image does not parse.
pub fn get_symbol_map_from_bytes(bytes: &[u8]) -> (r: SymbolTable)
    ensures
        elf_dynamic_symbols(bytes@) matches Some(s) ==> r@ == symbols_of(s),
        elf_dynamic_symbols(bytes@) is None ==> r@ == Map::<
            Seq<char>,
            SymbolDescriptor,
        >::empty(),
{
    match parse_symbol_table(bytes) {
        Ok(t) => t,
        Err(_) => {
            proof {
                lemma_no_named_entries(Seq::<(Option<Seq<char>>, SymbolDescriptor)>::empty());
            }
            let t = SymbolTable::from_symbols(Vec::new());
            assert(t.entries() =~= Seq::<
                (Option<Seq<char>>, SymbolDescriptor),
            >::empty());
            t
        },
    }
}

} // verus!
