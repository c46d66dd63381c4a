use crate::error::ToolError;
use vstd::prelude::*;
use vstd::slice::slice_subrange;
use vstd::string::StringSliceAdditionalSpecFns;

verus! {

/// Numeric identifier of an operating-system process.
pub type Pid = i32;

/// One entry of the process table: the entry's name, and the contents of the
/// process's command-name file where that could be read.
#[derive(Debug)]
pub struct ProcessEntry {
    pub dir_name: Vec<u8>,
    pub comm: Option<Vec<u8>>,
}

pub open spec fn is_digit(b: u8) -> bool {
    48 <= b <= 57
}

/// The number that a string of decimal digits spells.
pub open spec fn decimal_value(s: Seq<u8>) -> int
    decreases s.len(),
{
    if s.len() == 0 {
        0
    } else {
        decimal_value(s.drop_last()) * 10 + (s.last() - 48)
    }
}

/// The process identifier that an entry name spells, if it spells one.
pub open spec fn pid_of(s: Seq<u8>) -> Option<Pid> {
    if s.len() > 0 && (forall|k: int| 0 <= k < s.len() ==> is_digit(#[trigger] s[k]))
        && decimal_value(s) <= i32::MAX {
        Some(decimal_value(s) as i32)
    } else {
        None
    }
}

/// `s` without its trailing newline, if it ends in one.
pub open spec fn strip_newline(s: Seq<u8>) -> Seq<u8> {
    if s.len() > 0 && s.last() == 10 {
        s.drop_last()
    } else {
        s
    }
}

/// Whether `e` is a process whose command name, trailing newline taken out, is `name`.
pub open spec fn entry_matches(e: ProcessEntry, name: Seq<u8>) -> bool {
    &&& pid_of(e.dir_name@) is Some
    &&& e.comm matches Some(c) && strip_newline(c@) == name
}

proof fn lemma_decimal_prefix_bound(s: Seq<u8>, i: int)
    requires
        0 <= i <= s.len(),
        forall|k: int| 0 <= k < s.len() ==> is_digit(#[trigger] s[k]),
    ensures
        decimal_value(s.take(i)) <= decimal_value(s),
        decimal_value(s.take(i)) >= 0,
    decreases s.len(),
{
    if i < s.len() {
        lemma_decimal_prefix_bound(s.drop_last(), i);
        assert(s.drop_last().take(i) =~= s.take(i));
        lemma_decimal_prefix_bound(s.drop_last(), s.len() - 1);
        assert(s.drop_last().take(s.len() - 1) =~= s.drop_last());
    } else {
        assert(s.take(i) =~= s);
        if s.len() > 0 {
            lemma_decimal_prefix_bound(s.drop_last(), s.len() - 1);
            assert(s.drop_last().take(s.len() - 1) =~= s.drop_last());
        }
    }
}

/// The process identifier that `s` spells as decimal digits, if it is one.
pub fn parse_pid(s: &[u8]) -> (r: Option<Pid>)
    ensures
        r == pid_of(s@),
{
    if s.len() == 0 {
        return None;
    }
    let mut v: u64 = 0;
    let mut i: usize = 0;
    while i < s.len()
        invariant
            i <= s@.len(),
            s@.len() > 0,
            forall|k: int| 0 <= k < i ==> is_digit(#[trigger] s@[k]),
            v == decimal_value(s@.take(i as int)),
            v <= i32::MAX,
        decreases s@.len() - i,
    {
        let b = s[i];
        if b < 48 || b > 57 {
            assert(!is_digit(s@[i as int]));
            return None;
        }
        assert(s@.take(i + 1).drop_last() =~= s@.take(i as int));
        v = v * 10 + (b - 48) as u64;
        i = i + 1;
        if v > 0x7fff_ffff {
            proof {
                if forall|k: int| 0 <= k < s@.len() ==> is_digit(#[trigger] s@[k]) {
                    lemma_decimal_prefix_bound(s@, i as int);
                }
            }
            return None;
        }
    }
    assert(s@.take(i as int) =~= s@);
    Some(v as i32)
}

/// `s` without its trailing newline, if it ends in one.
pub fn trim_newline(s: &[u8]) -> (r: &[u8])
    ensures
        r@ == strip_newline(s@),
{
    if s.len() > 0 && s[s.len() - 1] == 10 {
        let r = slice_subrange(s, 0, s.len() - 1);
        assert(r@ =~= s@.drop_last());
        r
    } else {
        s
    }
}

/// Whether two byte strings are equal.
pub fn bytes_equal(a: &[u8], b: &[u8]) -> (r: bool)
    ensures
        r == (a@ == b@),
{
    if a.len() != b.len() {
        return false;
    }
    let mut i: usize = 0;
    while i < a.len()
        invariant
            i <= a@.len(),
            a@.len() == b@.len(),
            forall|k: int| 0 <= k < i ==> a@[k] == b@[k],
        decreases a@.len() - i,
    {
        if a[i] != b[i] {
            return false;
        }
        i = i + 1;
    }
    assert(a@ =~= b@);
    true
}

/// The identifier of the first process in `entries` whose command name, trailing
/// newline taken out, is `name`; `NotFound` where there is none. Entries whose name is not
/// a process identifier, or whose command name could not be read, are passed over.
pub fn get_process_id_by_name(entries: &Vec<ProcessEntry>, name: &str) -> (r: Result<
    Pid,
    ToolError,
>)
    ensures
        r matches Ok(pid) ==> exists|i: int|
            0 <= i < entries@.len() && entry_matches(#[trigger] entries@[i], name.spec_bytes())
                && pid_of(entries@[i].dir_name@) == Some(pid) && forall|j: int|
                0 <= j < i ==> !entry_matches(#[trigger] entries@[j], name.spec_bytes()),
        r is Err ==> r == Err::<Pid, ToolError>(ToolError::NotFound) && forall|i: int|
            0 <= i < entries@.len() ==> !entry_matches(#[trigger] entries@[i], name.spec_bytes()),
{
    let wanted = name.as_bytes();
    let mut i: usize = 0;
    while i < entries.len()
        invariant
            i <= entries@.len(),
            wanted@ == name.spec_bytes(),
            forall|j: int| 0 <= j < i ==> !entry_matches(#[trigger] entries@[j], name.spec_bytes()),
        decreases entries@.len() - i,
    {
        let entry = &entries[i];
        if let Some(comm) = &entry.comm {
            if bytes_equal(trim_newline(comm.as_slice()), wanted) {
                if let Some(pid) = parse_pid(entry.dir_name.as_slice()) {
                    assert(entry_matches(entries@[i as int], name.spec_bytes()));
                    return Ok(pid);
                }
            }
        }
        i = i + 1;
    }
    Err(ToolError::NotFound)
}

/// One contiguous mapped range of a process's address space.
#[derive(Debug)]
pub struct MemoryRegion {
    pub filename: Option<String>,
    pub start: usize,
    pub size: usize,
    pub readable: bool,
    pub writable: bool,
    pub executable: bool,
}

/// The first executable region for which `pred` holds; `NotFound` where there is none.
/// A region that is not executable is never returned, whatever `pred` says of it.
pub fn get_process_map_range<'a, F: Fn(&MemoryRegion) -> bool>(
    regions: &'a Vec<MemoryRegion>,
    pred: F,
) -> (r: Result<&'a MemoryRegion, ToolError>)
    requires
        forall|m: &MemoryRegion| pred.requires((m,)),
    ensures
        r matches Ok(m) ==> m.executable && exists|i: int|
            0 <= i < regions@.len() && *m == regions@[i] && pred.ensures((&regions@[i],), true)
                && forall|j: int|
                0 <= j < i ==> !(#[trigger] regions@[j]).executable || pred.ensures(
                    (&regions@[j],),
                    false,
                ),
        r is Err ==> r == Err::<&MemoryRegion, ToolError>(ToolError::NotFound) && forall|j: int|
            0 <= j < regions@.len() ==> !(#[trigger] regions@[j]).executable || pred.ensures(
                (&regions@[j],),
                false,
            ),
{
    let mut i: usize = 0;
    while i < regions.len()
        invariant
            i <= regions@.len(),
            forall|m: &MemoryRegion| pred.requires((m,)),
            forall|j: int|
                0 <= j < i ==> !(#[trigger] regions@[j]).executable || pred.ensures(
                    (&regions@[j],),
                    false,
                ),
        decreases regions@.len() - i,
    {
        let region = &regions[i];
        if region.executable {
            if pred(region) {
                return Ok(region);
            }
        }
        i = i + 1;
    }
    Err(ToolError::NotFound)
}

} // verus!
