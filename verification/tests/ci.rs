use bsdkrun::ci::{chrono_ish, ci_verb, span_row, trace_row, traces_header, CiSpan, CiTrace, CiVerb, SPANS_NEED_TRACE};

fn args(v: &[&str]) -> Vec<String> {
    v.iter().map(|s| s.to_string()).collect()
}

#[test]
fn chrono_ish_starts_at_the_epoch() {
    assert_eq!(chrono_ish(0), "1970-01-01 00:00:00");
    assert_eq!(chrono_ish(999_999_999), "1970-01-01 00:00:00");
}

#[test]
fn chrono_ish_known_moments() {
    assert_eq!(chrono_ish(1_700_000_000_000_000_000), "2023-11-14 22:13:20");
    assert_eq!(chrono_ish(1_709_164_800_000_000_000), "2024-02-29 00:00:00");
    assert_eq!(chrono_ish(951_782_400_000_000_000), "2000-02-29 00:00:00");
    assert_eq!(chrono_ish(1_709_251_199_000_000_000), "2024-02-29 23:59:59");
    assert_eq!(chrono_ish(1_709_251_200_000_000_000), "2024-03-01 00:00:00");
    assert_eq!(chrono_ish(1_735_689_599_000_000_000), "2024-12-31 23:59:59");
}

#[test]
fn chrono_ish_before_the_epoch_rounds_toward_zero_then_floors_days() {
    assert_eq!(chrono_ish(-1), "1970-01-01 00:00:00");
    assert_eq!(chrono_ish(-1_000_000_000), "1969-12-31 23:59:59");
    assert_eq!(chrono_ish(-86_400_000_000_000), "1969-12-31 00:00:00");
}

#[test]
fn chrono_ish_at_the_ends_of_the_range() {
    assert_eq!(chrono_ish(i64::MIN), "1677-09-21 00:12:44");
    assert_eq!(chrono_ish(i64::MAX), "2262-04-11 23:47:16");
}

#[test]
fn ci_verbs_the_engine_answers() {
    assert_eq!(ci_verb(&args(&["__record-trace"])).unwrap(), CiVerb::RecordTrace);
    assert_eq!(ci_verb(&args(&["traces"])).unwrap(), CiVerb::Traces { json: false });
    assert_eq!(ci_verb(&args(&["traces", "--json"])).unwrap(), CiVerb::Traces { json: true });
    assert_eq!(
        ci_verb(&args(&["spans", "t1", "--json"])).unwrap(),
        CiVerb::Spans { trace_id: "t1".to_string(), json: true }
    );
    assert_eq!(
        ci_verb(&args(&["spans", "t1"])).unwrap(),
        CiVerb::Spans { trace_id: "t1".to_string(), json: false }
    );
}

#[test]
fn ci_spans_without_a_trace_is_refused() {
    assert_eq!(ci_verb(&args(&["spans"])).unwrap_err(), SPANS_NEED_TRACE);
    assert_eq!(ci_verb(&args(&["spans", "--json"])).unwrap_err(), SPANS_NEED_TRACE);
}

#[test]
fn ci_other_verbs_go_to_the_runner() {
    assert_eq!(ci_verb(&args(&[])).unwrap(), CiVerb::PassThrough);
    assert_eq!(ci_verb(&args(&["run", "--json"])).unwrap(), CiVerb::PassThrough);
}

#[test]
fn ci_listing_rows_are_padded_like_the_table() {
    assert_eq!(
        traces_header(),
        format!("{:<34}  {:<22}  {:<8}  {:<9}  {}", "TRACE", "WORKFLOW", "STATUS", "DURATION", "STARTED")
    );
    let t = CiTrace {
        trace_id: "abc".to_string(),
        workflow: "a-very-long-workflow-name-indeed".to_string(),
        ok: false,
        start_ns: 0,
        end_ns: 1_500_000,
    };
    assert_eq!(
        trace_row(&t),
        format!(
            "{:<34}  {:<22}  {:<8}  {:>7}ms  {}",
            "abc", "a-very-long-workflow-\u{2026}", "failed", 1, "1970-01-01 00:00:00"
        )
    );
    let sp = CiSpan {
        name: "checkout".to_string(),
        ok: true,
        start_ns: 5_000_000,
        end_ns: 2_005_000_000,
        error: None,
    };
    assert_eq!(span_row(&sp), format!("{:<30}  {:<8}  {:>7}ms", "checkout", "ok", 2000));
    let failed = CiSpan { error: Some("exit 1".to_string()), ok: false, ..sp };
    assert_eq!(
        span_row(&failed),
        format!("{:<30}  {:<8}  {:>7}ms  exit 1", "checkout", "failed", 2000)
    );
}
