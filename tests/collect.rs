use ssm::collect::{collect_all, disk_usage_to_metrics, get_disk_usage, server_metrics, CollectError};
use ssm::config::{AuthMethod, Secret, Server};
use ssm::session::{CommandResult, SessionError};
use ssm::usage::{DiskUsage, DiskUsageEntry, ParseError};

fn server(id: &str, extra: Option<Vec<(&str, &str)>>) -> Server {
    Server {
        id: id.to_string(),
        address: format!("{id}:22"),
        username: "root".to_string(),
        auth: AuthMethod::Password { password: Secret::new("pw".to_string()) },
        extra_labels: extra
            .map(|v| v.into_iter().map(|(k, v)| (k.to_string(), v.to_string())).collect()),
    }
}

fn entry(fs: &str, mount: &str, blocks: usize, used: usize, available: usize) -> DiskUsageEntry {
    DiskUsageEntry { filesystem: fs.to_string(), mount: mount.to_string(), blocks, used, available }
}

const REPORT: &str = "Filesystem 1K-blocks Used Available Use% Mounted on\n/dev/sda1 1000 200 800 20% /\n";

fn ok(output: &str) -> Result<CommandResult, SessionError> {
    Ok(CommandResult { exit_code: 0, output: output.to_string() })
}

#[test]
fn three_lines_per_entry_in_fixed_order() {
    let s = server("a", None);
    let usage = DiskUsage { entries: vec![entry("/dev/sda1", "/", 1000, 200, 800)] };
    assert_eq!(
        disk_usage_to_metrics(&s, &usage),
        "ssm_blocks{id=\"a\",address=\"a:22\",filesystem=\"/dev/sda1\",mount=\"/\"} 1000\n\
         ssm_available{id=\"a\",address=\"a:22\",filesystem=\"/dev/sda1\",mount=\"/\"} 800\n\
         ssm_used{id=\"a\",address=\"a:22\",filesystem=\"/dev/sda1\",mount=\"/\"} 200\n"
    );
}

#[test]
fn extra_labels_come_after_mount() {
    let s = server("a", Some(vec![("env", "prod")]));
    let usage = DiskUsage {
        entries: vec![entry("/dev/sda1", "/", 1, 2, 3), entry("tmpfs", "/run x", 4, 5, 6)],
    };
    let text = disk_usage_to_metrics(&s, &usage);
    let lines: Vec<&str> = text.lines().collect();
    assert_eq!(lines.len(), 6);
    assert!(lines[0].ends_with("mount=\"/\",env=\"prod\"} 1"));
    assert!(lines[5].ends_with("mount=\"/run x\",env=\"prod\"} 5"));
    for l in lines {
        assert!(l.contains(",env=\"prod\"}"));
    }
}

#[test]
fn fixed_labels_win_over_extra_labels() {
    let s = server("a", Some(vec![("id", "other"), ("zone", "z1"), ("mount", "m")]));
    let usage = DiskUsage { entries: vec![entry("fs", "/", 1, 1, 1)] };
    let text = disk_usage_to_metrics(&s, &usage);
    assert!(text.starts_with("ssm_blocks{id=\"a\",address=\"a:22\",filesystem=\"fs\",mount=\"/\",zone=\"z1\"} 1\n"));
    assert!(!text.contains("other"));
}

#[test]
fn no_entries_no_lines() {
    let s = server("a", None);
    assert_eq!(disk_usage_to_metrics(&s, &DiskUsage { entries: vec![] }), "");
}

#[test]
fn failing_servers_contribute_nothing() {
    let servers = vec![server("a", None), server("b", None), server("c", None), server("d", None)];
    let outcomes = vec![
        ok(REPORT),
        Err(SessionError::NotAuthenticated),
        Ok(CommandResult { exit_code: 1, output: "boom".to_string() }),
        ok("header\nbad line"),
    ];
    let only_a = server_metrics(&servers[0], ok(REPORT)).ok().unwrap();
    let c = collect_all(&servers, outcomes);
    assert!(!c.body.is_empty());
    assert_eq!(c.body, only_a);
    assert!(!c.body.contains("id=\"b\""));
    let failed: Vec<usize> = c.failures.iter().map(|f| f.0).collect();
    assert_eq!(failed, vec![1, 2, 3]);
    assert!(matches!(c.failures[0].1, CollectError::Session(SessionError::NotAuthenticated)));
    match &c.failures[1].1 {
        CollectError::Exec(e) => {
            assert_eq!(e.exit_code, 1);
            assert_eq!(e.output.as_deref(), Some("boom"));
        }
        _ => panic!("expected an exit error"),
    }
    assert!(matches!(c.failures[2].1, CollectError::Parse(ParseError::InvalidBlocks)));
}

#[test]
fn all_failed_gives_empty_body() {
    let servers = vec![server("a", None), server("b", None)];
    let outcomes = vec![Err(SessionError::Connection("refused".to_string())), ok("h\nx 1 2")];
    let c = collect_all(&servers, outcomes);
    assert_eq!(c.body, "");
    assert_eq!(c.failures.len(), 2);
}

#[test]
fn successful_bodies_are_concatenated() {
    let servers = vec![server("a", None), server("b", None)];
    let c = collect_all(&servers, vec![ok(REPORT), ok(REPORT)]);
    let a = server_metrics(&servers[0], ok(REPORT)).ok().unwrap();
    let b = server_metrics(&servers[1], ok(REPORT)).ok().unwrap();
    assert_eq!(c.body, format!("{a}{b}"));
    assert!(c.failures.is_empty());
}

#[test]
fn get_disk_usage_errors() {
    assert!(matches!(get_disk_usage(Err(SessionError::NotAuthenticated)), Err(CollectError::Session(SessionError::NotAuthenticated))));
    match get_disk_usage(Ok(CommandResult { exit_code: 2, output: String::new() })) {
        Err(CollectError::Exec(e)) => {
            assert_eq!(e.exit_code, 2);
            assert!(e.output.is_none());
        }
        _ => panic!("expected an exit error"),
    }
    assert!(matches!(get_disk_usage(ok("h\nfs 1 2 3 4%")), Err(CollectError::Parse(_))));
    let u = get_disk_usage(ok(REPORT)).ok().unwrap();
    assert_eq!(u.entries[0].available, 800);
}

#[test]
fn env_label_closes_every_line() {
    let s = server("a", Some(vec![("env", "prod")]));
    let usage = DiskUsage { entries: vec![entry("fs", "/data", 9, 4, 5)] };
    let text = disk_usage_to_metrics(&s, &usage);
    for l in text.lines() {
        assert!(l.contains(",mount=\"/data\",env=\"prod\"} "));
    }
}

#[test]
fn label_names_must_be_distinct() {
    assert!(server("a", None).is_well_formed());
    assert!(server("a", Some(vec![("env", "prod"), ("zone", "z")])).is_well_formed());
    assert!(!server("a", Some(vec![("env", "prod"), ("zone", "z"), ("env", "dev")])).is_well_formed());
}
