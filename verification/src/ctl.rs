//! What the control program tells its user.
use crate::text::{concat, views};
use vstd::prelude::*;

verus! {

/// What the daemon says of itself.
#[derive(Debug)]
pub struct DaemonStatus {
    pub state: String,
    pub ready: bool,
    pub detail: String,
}

/// What the diagnostics found.
#[derive(Debug)]
pub struct Findings {
    pub fcitx5: bool,
    pub pw_record: bool,
    pub worker_python: bool,
    pub cloud_key: bool,
    pub asr_key: bool,
    /// What the daemon says, or why it cannot be asked.
    pub daemon: Result<DaemonStatus, String>,
}

/// Outcome of the diagnostics.
#[derive(Debug)]
pub struct Diagnosis {
    pub lines: Vec<String>,
    pub healthy: bool,
}

/// `true` or `false`.
pub open spec fn truth(value: bool) -> Seq<char> {
    if value {
        "true"@
    } else {
        "false"@
    }
}

/// The lines on the status of the daemon.
pub open spec fn status_text(status: DaemonStatus) -> Seq<Seq<char>> {
    let lines = seq!["state: "@ + status.state@, "ASR ready: "@ + truth(status.ready)];
    if status.detail@.len() > 0 {
        lines.push("detail: "@ + status.detail@)
    } else {
        lines
    }
}

/// The lines on the status of the daemon.
pub fn status_lines(status: &DaemonStatus) -> (r: Vec<String>)
    ensures
        views(r@) == status_text(*status),
{
    let mut lines: Vec<String> = Vec::new();
    lines.push(concat("state: ", status.state.as_str()));
    lines.push(
        concat(
            "ASR ready: ",
            if status.ready {
                "true"
            } else {
                "false"
            },
        ),
    );
    if !status.detail.as_str().is_empty() {
        lines.push(concat("detail: ", status.detail.as_str()));
    }
    assert(views(lines@) =~= status_text(*status));
    lines
}

/// A line on one check.
pub open spec fn check_text(ok: bool, otherwise: Seq<char>, label: Seq<char>) -> Seq<char> {
    "["@ + (if ok {
        "ok"@
    } else {
        otherwise
    }) + "] "@ + label
}

fn check_line(ok: bool, otherwise: &str, label: &str) -> (r: String)
    ensures
        r@ == check_text(ok, otherwise@, label@),
{
    let open = concat(
        "[",
        if ok {
            "ok"
        } else {
            otherwise
        },
    );
    let closed = concat(open.as_str(), "] ");
    concat(closed.as_str(), label)
}

/// Everything that is required is there. The recognition key is not: only remote
/// recognition needs it.
pub open spec fn is_healthy(findings: Findings) -> bool {
    findings.fcitx5 && findings.pw_record && findings.worker_python && findings.cloud_key
        && findings.daemon is Ok
}

/// The lines on the daemon.
pub open spec fn daemon_text(daemon: Result<DaemonStatus, String>) -> Seq<Seq<char>> {
    match daemon {
        Ok(status) => status_text(status).push("[ok] daemon DBus"@),
        Err(error) => seq!["[fail] daemon DBus: "@ + error@],
    }
}

/// The lines of the diagnosis.
pub open spec fn diagnosis_text(findings: Findings) -> Seq<Seq<char>> {
    let checks = seq![
        check_text(findings.fcitx5, "fail"@, "fcitx5"@),
        check_text(findings.pw_record, "fail"@, "pw-record"@),
        check_text(findings.worker_python, "fail"@, "ASR Python"@),
        check_text(findings.cloud_key, "missing"@, "cloud API key"@),
        check_text(
            findings.asr_key,
            "optional"@,
            "ASR API key (only required for remote ASR)"@,
        ),
    ];
    let verdict = if is_healthy(findings) {
        seq!["All required checks passed."@]
    } else {
        Seq::empty()
    };
    checks + daemon_text(findings.daemon) + verdict
}

/// The diagnosis that follows from the findings.
pub fn diagnose(findings: &Findings) -> (r: Diagnosis)
    ensures
        r.healthy == is_healthy(*findings),
        views(r.lines@) == diagnosis_text(*findings),
{
    let mut lines: Vec<String> = Vec::new();
    lines.push(check_line(findings.fcitx5, "fail", "fcitx5"));
    lines.push(check_line(findings.pw_record, "fail", "pw-record"));
    lines.push(check_line(findings.worker_python, "fail", "ASR Python"));
    lines.push(check_line(findings.cloud_key, "missing", "cloud API key"));
    lines.push(
        check_line(findings.asr_key, "optional", "ASR API key (only required for remote ASR)"),
    );
    let ghost checks = views(lines@);
    match &findings.daemon {
        Ok(status) => {
            let mut more = status_lines(status);
            let ghost shown = views(more@);
            lines.append(&mut more);
            assert(views(lines@) =~= checks + shown);
            lines.push("[ok] daemon DBus".to_owned());
        },
        Err(error) => {
            lines.push(concat("[fail] daemon DBus: ", error.as_str()));
        },
    }
    assert(views(lines@) =~= checks + daemon_text(findings.daemon));
    let healthy = findings.fcitx5 && findings.pw_record && findings.worker_python
        && findings.cloud_key && findings.daemon.is_ok();
    if healthy {
        lines.push("All required checks passed.".to_owned());
    }
    assert(views(lines@) =~= diagnosis_text(*findings));
    Diagnosis { lines, healthy }
}

/// A line on a key.
pub fn key_line(label: &str, configured: bool) -> (r: String)
    ensures
        r@ == label@ + ": "@ + (if configured {
            "configured"@
        } else {
            "missing"@
        }),
{
    let start = concat(label, ": ");
    concat(
        start.as_str(),
        if configured {
            "configured"
        } else {
            "missing"
        },
    )
}

/// All is well exactly if every required check is, whatever is known of the
/// recognition key; and only then does the diagnosis end by saying so.
pub proof fn every_required_check_counts(findings: Findings)
    ensures
        is_healthy(findings) <==> !(!findings.fcitx5 || !findings.pw_record
            || !findings.worker_python || !findings.cloud_key || findings.daemon is Err),
        is_healthy(findings) ==> diagnosis_text(findings).last() == "All required checks passed."@,
        findings.daemon matches Err(error) ==> diagnosis_text(findings).last()
            == "[fail] daemon DBus: "@ + error@,
        findings.daemon is Ok && !is_healthy(findings) ==> diagnosis_text(findings).last()
            == "[ok] daemon DBus"@,
{
}

/// A status names the state and whether recognition is ready, and the detail if
/// there is any.
pub proof fn a_status_names_the_detail_if_any(status: DaemonStatus)
    ensures
        status_text(status)[0] == "state: "@ + status.state@,
        status_text(status)[1] == "ASR ready: "@ + (if status.ready {
            "true"@
        } else {
            "false"@
        }),
        status.detail@.len() == 0 ==> status_text(status).len() == 2,
        status.detail@.len() > 0 ==> status_text(status).len() == 3 && status_text(status)[2]
            == "detail: "@ + status.detail@,
{
}

/// Every check has a line that says whether it passed, in a fixed order.
pub proof fn every_check_has_its_line(findings: Findings)
    ensures
        diagnosis_text(findings)[0] == (if findings.fcitx5 {
            "["@ + "ok"@
        } else {
            "["@ + "fail"@
        }) + "] "@ + "fcitx5"@,
        diagnosis_text(findings)[1] == (if findings.pw_record {
            "["@ + "ok"@
        } else {
            "["@ + "fail"@
        }) + "] "@ + "pw-record"@,
        diagnosis_text(findings)[2] == (if findings.worker_python {
            "["@ + "ok"@
        } else {
            "["@ + "fail"@
        }) + "] "@ + "ASR Python"@,
        diagnosis_text(findings)[3] == (if findings.cloud_key {
            "["@ + "ok"@
        } else {
            "["@ + "missing"@
        }) + "] "@ + "cloud API key"@,
        diagnosis_text(findings)[4] == (if findings.asr_key {
            "["@ + "ok"@
        } else {
            "["@ + "optional"@
        }) + "] "@ + "ASR API key (only required for remote ASR)"@,
{
}

} // verus!
