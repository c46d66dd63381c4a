use proc_patch::error::ToolError;
use proc_patch::process::{
    bytes_equal, get_process_id_by_name, get_process_map_range, parse_pid, trim_newline,
    MemoryRegion, ProcessEntry,
};

fn entry(dir: &str, comm: Option<&str>) -> ProcessEntry {
    ProcessEntry {
        dir_name: dir.as_bytes().to_vec(),
        comm: comm.map(|c| c.as_bytes().to_vec()),
    }
}

fn region(name: &str, start: usize, executable: bool) -> MemoryRegion {
    MemoryRegion {
        filename: Some(name.to_string()),
        start,
        size: 0x1000,
        readable: true,
        writable: false,
        executable,
    }
}

#[test]
fn finds_process_by_command_name() {
    let entries = vec![
        entry("1", Some("systemd\n")),
        entry("self", Some("hon-x86_64\n")),
        entry("42", None),
        entry("4242", Some("hon-x86_64\n")),
        entry("5000", Some("hon-x86_64\n")),
    ];
    assert_eq!(get_process_id_by_name(&entries, "hon-x86_64"), Ok(4242));
    assert_eq!(get_process_id_by_name(&entries, "systemd"), Ok(1));
}

#[test]
fn absent_process_is_not_found() {
    let entries = vec![entry("1", Some("systemd\n")), entry("7", Some("bash\n"))];
    assert_eq!(get_process_id_by_name(&entries, "hon-x86_64"), Err(ToolError::NotFound));
    assert_eq!(get_process_id_by_name(&entries, "bas"), Err(ToolError::NotFound));
    let doubled = vec![entry("9", Some("bash\n\n"))];
    assert_eq!(get_process_id_by_name(&doubled, "bash"), Err(ToolError::NotFound));
    assert_eq!(get_process_id_by_name(&doubled, "bash\n"), Ok(9));
    assert_eq!(get_process_id_by_name(&Vec::new(), "bash"), Err(ToolError::NotFound));
}

#[test]
fn pid_parsing_edges() {
    assert_eq!(parse_pid(b"0"), Some(0));
    assert_eq!(parse_pid(b"2147483647"), Some(i32::MAX));
    assert_eq!(parse_pid(b"2147483648"), None);
    assert_eq!(parse_pid(b"99999999999999999999"), None);
    assert_eq!(parse_pid(b""), None);
    assert_eq!(parse_pid(b"12a"), None);
    assert_eq!(parse_pid(b"-1"), None);
}

#[test]
fn newline_removal_and_comparison() {
    assert_eq!(trim_newline(b"a\nb\n"), b"a\nb");
    assert_eq!(trim_newline(b"ab"), b"ab");
    assert_eq!(trim_newline(b""), b"");
    assert!(bytes_equal(b"abc", b"abc"));
    assert!(!bytes_equal(b"abc", b"abd"));
    assert!(!bytes_equal(b"abc", b"ab"));
}

#[test]
fn non_executable_region_is_never_chosen() {
    let regions = vec![
        region("/lib/shared.so", 0x1000, false),
        region("/usr/bin/game", 0x2000, true),
        region("/lib/shared.so", 0x3000, true),
        region("/lib/shared.so", 0x4000, true),
    ];
    let pick = |m: &MemoryRegion| m.filename.as_deref().unwrap_or("").contains("shared");
    let found = get_process_map_range(&regions, pick).unwrap();
    assert_eq!(found.start, 0x3000);
    assert!(found.executable);

    let only_data = vec![region("/lib/shared.so", 0x1000, false)];
    assert!(matches!(
        get_process_map_range(&only_data, |_m: &MemoryRegion| true),
        Err(ToolError::NotFound)
    ));
    assert!(matches!(
        get_process_map_range(&regions, |_m: &MemoryRegion| false),
        Err(ToolError::NotFound)
    ));
}
