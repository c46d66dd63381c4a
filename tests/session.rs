use proc_patch::error::ToolError;
use proc_patch::session::{apply_patches, patch_address, write_patches, Patch};
use proc_patch::tracee::Tracee;
use proc_patch::simulated::SimulatedTracee;
use proc_patch::symbols::{DynamicSymbol, SymbolDescriptor, SymbolTable};

fn table(entries: &[(&str, u64)]) -> SymbolTable {
    SymbolTable::from_symbols(
        entries
            .iter()
            .map(|(n, v)| DynamicSymbol {
                name: Some(n.to_string()),
                descriptor: SymbolDescriptor { value: *v, size: 0, info: 0, other: 0, section: 0 },
            })
            .collect(),
    )
}

#[test]
fn end_to_end_patch_of_symbol() {
    let mut target = SimulatedTracee::new(0x1000, vec![0xcc; 0x100]);
    let symbols = table(&[("foo", 0x20)]);
    let patches = vec![Patch { symbol: "foo".to_string(), offset: 0x4f, bytes: vec![0xF3, 0x0F, 0x10, 0xCA] }];
    assert_eq!(patch_address(0x1000, 0x20, 0x4f), Some(0x1000 + 0x20 + 0x4f));
    let outcome = apply_patches(&mut target, 0x1000, &symbols, &patches);
    assert_eq!(outcome.patched, Ok(()));
    assert_eq!(outcome.detached, Some(Ok(())));
    assert_eq!(target.read_bytes(0x1000 + 0x20 + 0x4f, 4), Some(vec![0xF3, 0x0F, 0x10, 0xCA]));
    assert_eq!(target.read_bytes(0x1000 + 0x20 + 0x4f + 4, 4), Some(vec![0xcc; 4]));
    assert_eq!(target.read_bytes(0x1000 + 0x20 + 0x4e, 1), Some(vec![0xcc]));
    assert!(!target.is_traced());
    assert!(!target.is_stopped());
}

#[test]
fn missing_symbol_still_detaches() {
    let mut target = SimulatedTracee::new(0x1000, vec![0; 0x100]);
    let symbols = table(&[("foo", 0x20)]);
    let patches = vec![
        Patch { symbol: "foo".to_string(), offset: 0, bytes: vec![1] },
        Patch { symbol: "missing".to_string(), offset: 0, bytes: vec![2] },
    ];
    let outcome = apply_patches(&mut target, 0x1000, &symbols, &patches);
    assert_eq!(outcome.patched, Err(ToolError::NotFound));
    assert_eq!(outcome.detached, Some(Ok(())));
    assert!(!target.is_traced());
    assert!(!target.is_stopped());
    assert_eq!(target.read_bytes(0x1020, 1), Some(vec![0]));
}

#[test]
fn failed_write_still_detaches() {
    let mut target = SimulatedTracee::new(0x1000, vec![0; 0x100]);
    let symbols = table(&[("foo", 0x20)]);
    let patches = vec![Patch { symbol: "foo".to_string(), offset: 0x1000, bytes: vec![0x90; 8] }];
    let outcome = apply_patches(&mut target, 0x1000, &symbols, &patches);
    assert_eq!(outcome.patched, Err(ToolError::WriteError));
    assert_eq!(outcome.detached, Some(Ok(())));
    assert!(!target.is_traced());
    assert!(!target.is_stopped());
}

#[test]
fn address_overflow_is_rejected() {
    assert_eq!(patch_address(usize::MAX, 1, 0), None);
    assert_eq!(patch_address(1, u64::MAX, 0), None);
    assert_eq!(patch_address(usize::MAX - 3, 1, 2), Some(usize::MAX));
    let mut target = SimulatedTracee::new(0x1000, vec![0; 0x100]);
    let symbols = table(&[("foo", 0x20)]);
    let patches = vec![Patch { symbol: "foo".to_string(), offset: usize::MAX - 0x10, bytes: vec![1] }];
    let outcome = apply_patches(&mut target, 0x1000, &symbols, &patches);
    assert_eq!(outcome.patched, Err(ToolError::WriteError));
    assert_eq!(outcome.detached, Some(Ok(())));
    assert!(!target.is_traced());
}

#[test]
fn no_patches_only_attaches_and_detaches() {
    let mut target = SimulatedTracee::new(0x1000, vec![7; 16]);
    let outcome = apply_patches(&mut target, 0x1000, &table(&[]), &Vec::new());
    assert_eq!(outcome.patched, Ok(()));
    assert_eq!(outcome.detached, Some(Ok(())));
    assert_eq!(target.read_bytes(0x1000, 16), Some(vec![7; 16]));
    assert!(!target.is_traced());
}

#[test]
fn failure_before_first_write_still_detaches() {
    let mut target = SimulatedTracee::new(0x1000, vec![5; 0x40]);
    let symbols = table(&[("foo", 0x20)]);
    let patches = vec![
        Patch { symbol: "bar".to_string(), offset: 0, bytes: vec![1, 2] },
        Patch { symbol: "foo".to_string(), offset: 0, bytes: vec![1, 2] },
    ];
    let outcome = apply_patches(&mut target, 0x1000, &symbols, &patches);
    assert_eq!(outcome.patched, Err(ToolError::NotFound));
    assert_eq!(outcome.detached, Some(Ok(())));
    assert!(!target.is_traced());
    assert!(!target.is_stopped());
    assert_eq!(target.read_bytes(0x1000, 0x40), Some(vec![5; 0x40]));
}

#[test]
fn already_traced_target_is_refused_and_not_detached() {
    let mut target = SimulatedTracee::new(0x1000, vec![0; 0x40]);
    target.attach().unwrap();
    assert_eq!(target.attach(), Err(ToolError::AttachError));
    let symbols = table(&[("foo", 0x20)]);
    let patches = vec![Patch { symbol: "foo".to_string(), offset: 0, bytes: vec![1] }];
    let outcome = apply_patches(&mut target, 0x1000, &symbols, &patches);
    assert_eq!(outcome.patched, Err(ToolError::AttachError));
    assert_eq!(outcome.detached, None);
    assert!(target.is_traced());
    assert_eq!(target.read_bytes(0x1020, 1), Some(vec![0]));
}

#[test]
fn missing_symbol_is_found_before_any_write() {
    let mut target = SimulatedTracee::new(0x1000, vec![0; 0x100]);
    target.attach().unwrap();
    target.wait_for_stop().unwrap();
    let symbols = table(&[("foo", 0x20)]);
    let patches = vec![
        Patch { symbol: "foo".to_string(), offset: 0, bytes: vec![1, 2, 3] },
        Patch { symbol: "bar".to_string(), offset: 0, bytes: vec![4] },
    ];
    assert_eq!(write_patches(&mut target, 0x1000, &symbols, &patches), Err(ToolError::NotFound));
    assert_eq!(target.read_bytes(0x1020, 3), Some(vec![0, 0, 0]));
    assert_eq!(write_patches(&mut target, 0x1000, &symbols, &Vec::new()), Ok(()));
}

#[test]
fn detach_without_attach_is_refused() {
    let mut target = SimulatedTracee::new(0x1000, vec![0; 0x10]);
    assert_eq!(target.detach(), Err(ToolError::DetachError));
    assert_eq!(target.wait_for_stop(), Err(ToolError::WaitError));
    assert!(!target.is_traced());
}
