use vstd::prelude::*;
use crate::config::Server;
use crate::metrics::{decimal, label_text, label_views, labels_text, metric_line, write_metric};
use crate::text::{push_str, str_eq};
use crate::session::{CommandResult, ExecError, SessionError};
use crate::usage::{parse_report, DiskUsage, DiskUsageEntry, EntryModel, ParseError};

verus! {

/// The names of the labels that every metric line carries.
pub open spec fn is_fixed_label(k: Seq<char>) -> bool {
    k == "id"@ || k == "address"@ || k == "filesystem"@ || k == "mount"@
}

/// The extra labels as configured, in order.
pub open spec fn configured_labels(s: &Server) -> Seq<(Seq<char>, Seq<char>)> {
    match s.extra_labels {
        None => Seq::<(Seq<char>, Seq<char>)>::empty(),
        Some(v) => v@.map_values(|p: (String, String)| (p.0@, p.1@)),
    }
}

/// The extra labels that are emitted: those whose name is not a fixed label.
/// A fixed label always wins over an extra label of the same name.
pub open spec fn kept_labels(ls: Seq<(Seq<char>, Seq<char>)>) -> Seq<(Seq<char>, Seq<char>)>
    decreases ls.len(),
{
    if ls.len() == 0 {
        Seq::<(Seq<char>, Seq<char>)>::empty()
    } else if is_fixed_label(ls.last().0) {
        kept_labels(ls.drop_last())
    } else {
        kept_labels(ls.drop_last()).push(ls.last())
    }
}

/// The labels of every line for entry `e` of server `s`: id, address,
/// filesystem, mount, then the kept extra labels.
pub open spec fn entry_labels(s: &Server, e: EntryModel) -> Seq<(Seq<char>, Seq<char>)> {
    seq![("id"@, s.id@), ("address"@, s.address@), ("filesystem"@, e.filesystem), ("mount"@, e.mount)]
        + kept_labels(configured_labels(s))
}

/// The three lines of one entry: blocks, available, used.
pub open spec fn entry_text(s: &Server, e: EntryModel) -> Seq<char> {
    let ls = entry_labels(s, e);
    metric_line("ssm_blocks"@, e.blocks, ls) + metric_line("ssm_available"@, e.available, ls)
        + metric_line("ssm_used"@, e.used, ls)
}

/// The block of server `s` for the entries `es`, in order.
pub open spec fn usage_text(s: &Server, es: Seq<EntryModel>) -> Seq<char>
    decreases es.len(),
{
    if es.len() == 0 {
        Seq::<char>::empty()
    } else {
        usage_text(s, es.drop_last()) + entry_text(s, es.last())
    }
}

fn is_fixed_key(k: &str) -> (r: bool)
    ensures
        r == is_fixed_label(k@),
{
    str_eq(k, "id") || str_eq(k, "address") || str_eq(k, "filesystem") || str_eq(k, "mount")
}

fn labels_for<'a>(server: &'a Server, entry: &'a DiskUsageEntry) -> (r: Vec<(&'a str, &'a str)>)
    ensures
        label_views(r@) == entry_labels(server, entry@),
{
    let mut labels: Vec<(&'a str, &'a str)> = Vec::new();
    labels.push(("id", server.id.as_str()));
    labels.push(("address", server.address.as_str()));
    labels.push(("filesystem", entry.filesystem.as_str()));
    labels.push(("mount", entry.mount.as_str()));
    let ghost fixed = label_views(labels@);
    assert(fixed =~= seq![("id"@, server.id@), ("address"@, server.address@), ("filesystem"@, entry.filesystem@), ("mount"@, entry.mount@)]);
    match &server.extra_labels {
        None => {
            assert(label_views(labels@) =~= fixed + kept_labels(configured_labels(server)));
        },
        Some(extra) => {
            let ghost cl = configured_labels(server);
            let mut i: usize = 0;
            assert(cl.subrange(0, 0) =~= Seq::<(Seq<char>, Seq<char>)>::empty());
            assert(label_views(labels@) =~= fixed + kept_labels(cl.subrange(0, 0)));
            while i < extra.len()
                invariant
                    i <= extra@.len(),
                    cl == extra@.map_values(|p: (String, String)| (p.0@, p.1@)),
                    label_views(labels@) == fixed + kept_labels(cl.subrange(0, i as int)),
                decreases extra.len() - i,
            {
                let ghost next = cl.subrange(0, i + 1);
                assert(next.drop_last() =~= cl.subrange(0, i as int));
                let (k, v) = &extra[i];
                assert(next.last() == (k@, v@));
                let ghost before = labels@;
                let ks = k.as_str();
                let vs = v.as_str();
                if !is_fixed_key(ks) {
                    labels.push((ks, vs));
                    assert(label_views(labels@) =~= label_views(before).push((k@, v@)));
                } else {
                    assert(labels@ == before);
                }
                assert(label_views(labels@) =~= fixed + kept_labels(next));
                i = i + 1;
            }
            assert(cl.subrange(0, cl.len() as int) =~= cl);
        },
    }
    labels
}

/// The exposition block of one server: three lines per entry of its report.
pub fn disk_usage_to_metrics(server: &Server, disk_usage: &DiskUsage) -> (r: String)
    ensures
        r@ == usage_text(server, disk_usage@),
{
    let mut s = String::new();
    let ghost es = disk_usage@;
    let mut i: usize = 0;
    assert(es.subrange(0, 0) =~= Seq::<EntryModel>::empty());
    while i < disk_usage.entries.len()
        invariant
            i <= disk_usage.entries@.len(),
            es == disk_usage@,
            es.len() == disk_usage.entries@.len(),
            s@ == usage_text(server, es.subrange(0, i as int)),
        decreases disk_usage.entries.len() - i,
    {
        let entry = &disk_usage.entries[i];
        let ghost next = es.subrange(0, i + 1);
        assert(next.drop_last() =~= es.subrange(0, i as int));
        assert(next.last() == entry@);
        let labels = labels_for(server, entry);
        write_metric(&mut s, "ssm_blocks", entry.blocks, labels.as_slice());
        write_metric(&mut s, "ssm_available", entry.available, labels.as_slice());
        write_metric(&mut s, "ssm_used", entry.used, labels.as_slice());
        assert(s@ =~= usage_text(server, next));
        i = i + 1;
    }
    assert(es.subrange(0, es.len() as int) =~= es);
    s
}


/// Why one server contributes nothing to a collection.
pub enum CollectError {
    Session(SessionError),
    Exec(ExecError),
    Parse(ParseError),
}

/// The report that a server's command outcome gives, when it gives one:
/// the session worked, the command exited with status zero, and its output
/// parsed.
pub open spec fn outcome_report(o: Result<CommandResult, SessionError>) -> Option<Seq<EntryModel>> {
    match o {
        Err(_) => None,
        Ok(c) => if c.exit_code != 0 {
            None
        } else {
            match parse_report(c.output@) {
                Ok(es) => Some(es),
                Err(_) => None,
            }
        },
    }
}

/// Whether `e` is the error that outcome `o` gives: the session's own error;
/// for a non-zero exit status, that status and the output when there is any;
/// for output that does not parse, the parse error.
pub open spec fn outcome_error(o: Result<CommandResult, SessionError>, e: CollectError) -> bool {
    match o {
        Err(se) => e == CollectError::Session(se),
        Ok(c) => if c.exit_code != 0 {
            &&& e matches CollectError::Exec(x)
            &&& e->Exec_0.exit_code == c.exit_code
            &&& (e->Exec_0.output is None <==> c.output@.len() == 0)
            &&& (e->Exec_0.output matches Some(t) ==> t@ == c.output@)
        } else {
            match parse_report(c.output@) {
                Ok(_) => false,
                Err(pe) => e == CollectError::Parse(pe),
            }
        },
    }
}

/// What server `s` contributes to a body: its block, or nothing when it failed.
pub open spec fn server_text(s: &Server, o: Result<CommandResult, SessionError>) -> Seq<char> {
    match outcome_report(o) {
        Some(es) => usage_text(s, es),
        None => Seq::<char>::empty(),
    }
}

/// The body for the servers `ss` and their outcomes `os`: the contributions
/// of each server, in order.
pub open spec fn body_text(ss: Seq<Server>, os: Seq<Result<CommandResult, SessionError>>) -> Seq<
    char,
>
    decreases os.len(),
{
    if os.len() == 0 {
        Seq::<char>::empty()
    } else {
        body_text(ss, os.drop_last()) + server_text(&ss[os.len() - 1], os.last())
    }
}

/// The disk usage of one server from the outcome of its remote command.
pub fn get_disk_usage(outcome: Result<CommandResult, SessionError>) -> (r: Result<
    DiskUsage,
    CollectError,
>)
    ensures
        match r {
            Ok(u) => outcome_report(outcome) == Some(u@),
            Err(_) => outcome_report(outcome) is None,
        },
        r matches Err(e) ==> outcome_error(outcome, e),
{
    match outcome {
        Err(se) => Err(CollectError::Session(se)),
        Ok(c) => match c.check_exit_code() {
            Err(e) => Err(CollectError::Exec(e)),
            Ok(c) => match DiskUsage::from_str(c.output.as_str()) {
                Ok(u) => Ok(u),
                Err(pe) => Err(CollectError::Parse(pe)),
            },
        },
    }
}

/// The exposition block of one server from the outcome of its remote command.
pub fn server_metrics(server: &Server, outcome: Result<CommandResult, SessionError>) -> (r: Result<
    String,
    CollectError,
>)
    ensures
        r is Ok <==> outcome_report(outcome) is Some,
        r matches Ok(b) ==> b@ == server_text(server, outcome),
        r matches Err(e) ==> outcome_error(outcome, e),
{
    match get_disk_usage(outcome) {
        Ok(u) => Ok(disk_usage_to_metrics(server, &u)),
        Err(e) => Err(e),
    }
}

/// The result of one collection: the response body, and for each server
/// that failed its position in the list and the reason.
pub struct Collection {
    pub body: String,
    pub failures: Vec<(usize, CollectError)>,
}

/// Assembles the response body from every server's outcome. It never fails:
/// a server whose outcome gives no report contributes nothing and is listed
/// among the failures.
pub fn collect_all(servers: &Vec<Server>, outcomes: Vec<Result<CommandResult, SessionError>>) -> (r:
    Collection)
    requires
        servers@.len() == outcomes@.len(),
    ensures
        r.body@ == body_text(servers@, outcomes@),
        forall|k: int|
            0 <= k < r.failures@.len() ==> {
                &&& (#[trigger] r.failures@[k]).0 < outcomes@.len()
                &&& outcome_report(outcomes@[r.failures@[k].0 as int]) is None
                &&& outcome_error(outcomes@[r.failures@[k].0 as int], r.failures@[k].1)
            },
        forall|k1: int, k2: int|
            0 <= k1 < k2 < r.failures@.len() ==> (#[trigger] r.failures@[k1]).0
                < (#[trigger] r.failures@[k2]).0,
        forall|i: int|
            0 <= i < outcomes@.len() && (#[trigger] outcome_report(outcomes@[i])) is None
                ==> exists|k: int| 0 <= k < r.failures@.len() && r.failures@[k].0 == i,
{
    let ghost os = outcomes@;
    let mut rest = outcomes;
    let mut body = String::new();
    let mut failures: Vec<(usize, CollectError)> = Vec::new();
    let mut i: usize = 0;
    assert(os.subrange(0, 0) =~= Seq::<Result<CommandResult, SessionError>>::empty());
    while i < servers.len()
        invariant
            servers@.len() == os.len(),
            i <= os.len(),
            rest@ == os.subrange(i as int, os.len() as int),
            body@ == body_text(servers@, os.subrange(0, i as int)),
            forall|k: int|
                0 <= k < failures@.len() ==> {
                    &&& (#[trigger] failures@[k]).0 < i
                    &&& outcome_report(os[failures@[k].0 as int]) is None
                    &&& outcome_error(os[failures@[k].0 as int], failures@[k].1)
                },
            forall|k1: int, k2: int|
                0 <= k1 < k2 < failures@.len() ==> (#[trigger] failures@[k1]).0
                    < (#[trigger] failures@[k2]).0,
            forall|j: int|
                0 <= j < i && (#[trigger] outcome_report(os[j])) is None ==> exists|k: int|
                    0 <= k < failures@.len() && failures@[k].0 == j,
        decreases servers.len() - i,
    {
        let o = rest.remove(0);
        assert(o == os[i as int]);
        assert(rest@ =~= os.subrange(i + 1, os.len() as int));
        let ghost next = os.subrange(0, i + 1);
        assert(next.drop_last() =~= os.subrange(0, i as int));
        let ghost before = failures@;
        match server_metrics(&servers[i], o) {
            Ok(b) => {
                push_str(&mut body, b.as_str());
            },
            Err(e) => {
                failures.push((i, e));
                assert(failures@[failures@.len() - 1].0 == i);
            },
        }
        assert forall|j: int|
            0 <= j < i + 1 && (#[trigger] outcome_report(os[j])) is None implies exists|k: int|
                0 <= k < failures@.len() && failures@[k].0 == j by {
            if j < i {
                let k = choose|k: int| 0 <= k < before.len() && before[k].0 == j;
                assert(failures@[k] == before[k]);
            } else {
                assert(failures@[failures@.len() - 1].0 == j);
            }
        }
        assert(body@ =~= body_text(servers@, next));
        i = i + 1;
    }
    assert(os.subrange(0, os.len() as int) =~= os);
    Collection { body, failures }
}


proof fn lemma_body_prefix(ss: Seq<Server>, tt: Seq<Server>, os: Seq<Result<CommandResult, SessionError>>)
    requires
        ss.len() >= os.len(),
        tt.len() >= os.len(),
        forall|j: int| 0 <= j < os.len() ==> ss[j] == tt[j],
    ensures
        body_text(ss, os) == body_text(tt, os),
    decreases os.len(),
{
    if os.len() > 0 {
        lemma_body_prefix(ss, tt, os.drop_last());
    }
}

/// A server whose outcome gives no report contributes nothing: the body is
/// the body of the other servers alone.
pub proof fn failed_server_contributes_nothing(
    ss: Seq<Server>,
    os: Seq<Result<CommandResult, SessionError>>,
    i: int,
)
    requires
        ss.len() == os.len(),
        0 <= i < os.len(),
        outcome_report(os[i]) is None,
    ensures
        body_text(ss, os) == body_text(ss.remove(i), os.remove(i)),
{
    lemma_failed_contributes_nothing(ss, os, i);
}

proof fn lemma_failed_contributes_nothing(
    ss: Seq<Server>,
    os: Seq<Result<CommandResult, SessionError>>,
    i: int,
)
    requires
        ss.len() >= os.len(),
        0 <= i < os.len(),
        outcome_report(os[i]) is None,
    ensures
        body_text(ss, os) == body_text(ss.remove(i), os.remove(i)),
    decreases os.len(),
{
    let n = os.len() - 1;
    if i == n {
        assert(os.remove(i) =~= os.drop_last());
        lemma_body_prefix(ss, ss.remove(i), os.drop_last());
        assert(body_text(ss, os) =~= body_text(ss, os.drop_last()));
    } else {
        lemma_failed_contributes_nothing(ss, os.drop_last(), i);
        assert(os.remove(i).drop_last() =~= os.drop_last().remove(i));
        assert(os.remove(i).last() == os.last());
        assert(ss.remove(i)[n - 1] == ss[n]);
    }
}

proof fn lemma_usage_text_nonempty(s: &Server, es: Seq<EntryModel>)
    requires
        es.len() > 0,
    ensures
        usage_text(s, es).len() > 0,
{
    assert(usage_text(s, es) == usage_text(s, es.drop_last()) + entry_text(s, es.last()));
}

proof fn lemma_body_contains(ss: Seq<Server>, os: Seq<Result<CommandResult, SessionError>>, j: int)
    requires
        ss.len() >= os.len(),
        0 <= j < os.len(),
    ensures
        body_text(ss, os).len() >= server_text(&ss[j], os[j]).len(),
    decreases os.len(),
{
    if j < os.len() - 1 {
        lemma_body_contains(ss, os.drop_last(), j);
    }
}

/// When a server's outcome gives a report with at least one entry, the body
/// is not empty.
pub proof fn succeeding_server_shows(ss: Seq<Server>, os: Seq<Result<CommandResult, SessionError>>, j: int)
    requires
        ss.len() == os.len(),
        0 <= j < os.len(),
        outcome_report(os[j]) is Some,
        outcome_report(os[j])->Some_0.len() > 0,
    ensures
        body_text(ss, os).len() > 0,
{
    lemma_usage_text_nonempty(&ss[j], outcome_report(os[j])->Some_0);
    lemma_body_contains(ss, os, j);
}

/// When every server fails, the body is empty.
pub proof fn all_failed_gives_empty_body(ss: Seq<Server>, os: Seq<Result<CommandResult, SessionError>>)
    requires
        forall|j: int| 0 <= j < os.len() ==> (#[trigger] outcome_report(os[j])) is None,
    ensures
        body_text(ss, os) == Seq::<char>::empty(),
    decreases os.len(),
{
    if os.len() > 0 {
        assert forall|j: int| 0 <= j < os.drop_last().len() implies (#[trigger] outcome_report(
            os.drop_last()[j],
        )) is None by {
            assert(os.drop_last()[j] == os[j]);
        }
        all_failed_gives_empty_body(ss, os.drop_last());
        assert(outcome_report(os[os.len() - 1]) is None);
        assert(body_text(ss, os) =~= Seq::<char>::empty());
    }
}

proof fn lemma_kept_all(ls: Seq<(Seq<char>, Seq<char>)>)
    requires
        forall|j: int| 0 <= j < ls.len() ==> !is_fixed_label((#[trigger] ls[j]).0),
    ensures
        kept_labels(ls) == ls,
    decreases ls.len(),
{
    if ls.len() > 0 {
        assert forall|j: int| 0 <= j < ls.drop_last().len() implies !is_fixed_label(
            (#[trigger] ls.drop_last()[j]).0,
        ) by {
            assert(ls.drop_last()[j] == ls[j]);
        }
        lemma_kept_all(ls.drop_last());
        assert(!is_fixed_label(ls[ls.len() - 1].0));
        assert(ls.drop_last().push(ls.last()) =~= ls);
    }
}

/// Extra labels whose names are not fixed labels follow the fixed labels on
/// every line, in their configured order, right after `mount`.
pub proof fn extra_labels_follow_mount(s: &Server, e: EntryModel)
    requires
        forall|j: int|
            0 <= j < configured_labels(s).len() ==> !is_fixed_label(
                (#[trigger] configured_labels(s)[j]).0,
            ),
    ensures
        entry_labels(s, e) == seq![
            ("id"@, s.id@),
            ("address"@, s.address@),
            ("filesystem"@, e.filesystem),
            ("mount"@, e.mount),
        ] + configured_labels(s),
        entry_labels(s, e)[3] == ("mount"@, e.mount),
{
    lemma_kept_all(configured_labels(s));
}

/// Each label of `ls` preceded by a comma.
pub open spec fn labels_tail(ls: Seq<(Seq<char>, Seq<char>)>) -> Seq<char>
    decreases ls.len(),
{
    if ls.len() == 0 {
        Seq::<char>::empty()
    } else {
        labels_tail(ls.drop_last()) + seq![','] + label_text(ls.last())
    }
}

proof fn lemma_labels_text_concat(a: Seq<(Seq<char>, Seq<char>)>, b: Seq<(Seq<char>, Seq<char>)>)
    requires
        a.len() >= 1,
    ensures
        labels_text(a + b) == labels_text(a) + labels_tail(b),
    decreases b.len(),
{
    if b.len() == 0 {
        assert(a + b =~= a);
        assert(labels_text(a) + labels_tail(b) =~= labels_text(a));
    } else {
        lemma_labels_text_concat(a, b.drop_last());
        assert((a + b).drop_last() =~= a + b.drop_last());
        assert((a + b).last() == b.last());
        assert(labels_text(a + b) =~= labels_text(a) + labels_tail(b));
    }
}

/// On every line emitted for an entry, the label set runs id, address,
/// filesystem, then `mount` with the entry's mount point, then each extra
/// label in its configured order, and closes right after the last of them;
/// this holds when no extra label takes the name of a fixed label.
pub proof fn lines_end_with_mount_then_extra_labels(s: &Server, e: EntryModel, name: Seq<char>, value: nat)
    requires
        forall|j: int|
            0 <= j < configured_labels(s).len() ==> !is_fixed_label(
                (#[trigger] configured_labels(s)[j]).0,
            ),
    ensures
        metric_line(name, value, entry_labels(s, e)) == name + seq!['{'] + labels_text(
            seq![("id"@, s.id@), ("address"@, s.address@), ("filesystem"@, e.filesystem)],
        ) + seq![','] + label_text(("mount"@, e.mount)) + labels_tail(configured_labels(s)) + seq![
            '}',
            ' ',
        ] + decimal(value) + seq!['\n'],
{
    extra_labels_follow_mount(s, e);
    let fixed = seq![
        ("id"@, s.id@),
        ("address"@, s.address@),
        ("filesystem"@, e.filesystem),
        ("mount"@, e.mount),
    ];
    let first = seq![("id"@, s.id@), ("address"@, s.address@), ("filesystem"@, e.filesystem)];
    lemma_labels_text_concat(fixed, configured_labels(s));
    assert(fixed.drop_last() =~= first);
    assert(labels_text(fixed) == labels_text(first) + seq![','] + label_text(("mount"@, e.mount)));
    assert(metric_line(name, value, entry_labels(s, e)) =~= name + seq!['{'] + labels_text(first)
        + seq![','] + label_text(("mount"@, e.mount)) + labels_tail(configured_labels(s)) + seq![
        '}',
        ' ',
    ] + decimal(value) + seq!['\n']);
}

} // verus!
