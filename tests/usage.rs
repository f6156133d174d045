use ssm::usage::{DiskUsage, DiskUsageEntry, ParseError};

const HEADER: &str = "Filesystem 1K-blocks Used Available Use% Mounted on";

#[test]
fn parses_one_entry_with_spaced_mount() {
    let text = format!("{HEADER}\n/dev/sda1 1000 200 800 20% /mnt/data x");
    let usage = DiskUsage::from_str(&text).unwrap();
    assert_eq!(usage.entries.len(), 1);
    let e = &usage.entries[0];
    assert_eq!(e.filesystem, "/dev/sda1");
    assert_eq!(e.blocks, 1000);
    assert_eq!(e.used, 200);
    assert_eq!(e.available, 800);
    assert_eq!(e.mount, "/mnt/data x");
}

#[test]
fn parses_several_lines_and_skips_empty_ones() {
    let text = format!("{HEADER}\r\ntmpfs  10\t5 5 50%   /run\r\n\n/dev/sdb 7 1 6 14% /\n");
    let usage = DiskUsage::from_str(&text).unwrap();
    assert_eq!(usage.entries.len(), 2);
    assert_eq!(usage.entries[0].filesystem, "tmpfs");
    assert_eq!(usage.entries[0].mount, "/run");
    assert_eq!(usage.entries[1].blocks, 7);
    assert_eq!(usage.entries[1].mount, "/");
}

#[test]
fn header_only_gives_no_entries() {
    assert_eq!(DiskUsage::from_str(HEADER).unwrap().entries.len(), 0);
    assert_eq!(DiskUsage::from_str("").unwrap().entries.len(), 0);
}

#[test]
fn non_numeric_blocks_fails_whole_report() {
    let text = format!("{HEADER}\n/dev/sda1 1000 200 800 20% /\n/dev/sdb x 1 1 1% /b");
    assert!(matches!(DiskUsage::from_str(&text), Err(ParseError::InvalidBlocks)));
}

#[test]
fn missing_mount_fails_whole_report() {
    let text = format!("{HEADER}\n/dev/sda1 1000 200 800 20%\n/dev/sdb 1 1 1 1% /b");
    assert!(matches!(DiskUsage::from_str(&text), Err(ParseError::NoMount)));
}

#[test]
fn whitespace_line_has_no_filesystem() {
    let text = format!("{HEADER}\n   ");
    assert!(matches!(DiskUsage::from_str(&text), Err(ParseError::NoFilesystem)));
}

#[test]
fn each_line_error() {
    assert!(matches!(DiskUsageEntry::from_str("fs"), Err(ParseError::NoBlocks)));
    assert!(matches!(DiskUsageEntry::from_str("fs 1"), Err(ParseError::NoUsed)));
    assert!(matches!(DiskUsageEntry::from_str("fs 1 2"), Err(ParseError::NoAvailable)));
    assert!(matches!(DiskUsageEntry::from_str("fs 1 2 3"), Err(ParseError::NoMount)));
    assert!(matches!(DiskUsageEntry::from_str("fs 1 -2 3 4% /"), Err(ParseError::InvalidUsed)));
    assert!(matches!(DiskUsageEntry::from_str("fs 1 2 3a 4% /"), Err(ParseError::InvalidAvailable)));
    assert!(matches!(DiskUsageEntry::from_str("fs + 2 3 4% /"), Err(ParseError::InvalidBlocks)));
}

#[test]
fn numbers_must_fit_usize() {
    let max = format!("fs {} 0 0 0% /", usize::MAX);
    assert_eq!(DiskUsageEntry::from_str(&max).unwrap().blocks, usize::MAX);
    let over = format!("fs {}0 0 0 0% /", usize::MAX);
    assert!(matches!(DiskUsageEntry::from_str(&over), Err(ParseError::InvalidBlocks)));
}

#[test]
fn plus_sign_is_accepted() {
    let e = DiskUsageEntry::from_str("fs +12 0 0 0% /").unwrap();
    assert_eq!(e.blocks, 12);
}

#[test]
fn lone_carriage_return_as_last_line_fails() {
    assert!(matches!(DiskUsage::from_str("h\n\r"), Err(ParseError::NoFilesystem)));
    assert_eq!(DiskUsage::from_str("h\r\n\r\n").unwrap().entries.len(), 0);
}

#[test]
fn carriage_return_kept_on_unterminated_last_line() {
    let e = &DiskUsage::from_str("h\r\nfs 1 2 3 4% /m\r\nfs 1 2 3 4% /n\r").unwrap().entries;
    assert_eq!(e[0].mount, "/m");
    assert_eq!(e[1].mount, "/n");
}
