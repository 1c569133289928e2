use grondig::function::{
    cves_response, fatal, plan_run, str_field, str_list, ConditionStatus, Field, FieldValue,
    RunPlan, Severity, SpecFields, Target,
};

fn field(key: &str, value: FieldValue) -> Field {
    Field { key: key.to_string(), value }
}

fn list(items: &[Option<&str>]) -> FieldValue {
    FieldValue::List(items.iter().map(|i| i.map(|s| s.to_string())).collect())
}

fn spec() -> SpecFields {
    SpecFields {
        fields: vec![
            field("stableTag", FieldValue::Str("v6.12".to_string())),
            field("cherryPicked", list(&[Some("abc"), None, Some("def")])),
            field("compiledFiles", list(&[Some("kernel/fork.c")])),
            field("other", FieldValue::Other),
        ],
    }
}

#[test]
fn fatal_response_shape() {
    let r = fatal("t1", "MissingSpec", "observed composite resource has no spec");
    assert_eq!(r.tag, "t1");
    assert_eq!(r.results.len(), 1);
    assert_eq!(r.results[0].severity, Severity::Fatal);
    assert_eq!(r.results[0].message, "observed composite resource has no spec");
    assert_eq!(r.results[0].reason.as_deref(), Some("MissingSpec"));
    assert_eq!(r.results[0].target, Some(Target::Composite));
    assert_eq!(r.conditions.len(), 1);
    assert_eq!(r.conditions[0].condition_type, "GrondigReady");
    assert_eq!(r.conditions[0].status, ConditionStatus::False);
    assert_eq!(r.conditions[0].reason, "MissingSpec");
    assert_eq!(r.conditions[0].message.as_deref(), Some("observed composite resource has no spec"));
    assert!(r.cves.is_none());
}

#[test]
fn fields_are_read_by_key() {
    let s = spec();
    assert_eq!(str_field(&s, "stableTag"), Some("v6.12".to_string()));
    assert_eq!(str_field(&s, "cherryPicked"), None);
    assert_eq!(str_field(&s, "missing"), None);
    assert_eq!(str_list(&s, "cherryPicked"), vec!["abc".to_string(), "def".to_string()]);
    assert_eq!(str_list(&s, "stableTag"), Vec::<String>::new());
    assert_eq!(str_list(&s, "missing"), Vec::<String>::new());
}

#[test]
fn first_field_with_a_key_wins() {
    let s = SpecFields {
        fields: vec![
            field("k", FieldValue::Str("first".to_string())),
            field("k", FieldValue::Str("second".to_string())),
        ],
    };
    assert_eq!(str_field(&s, "k"), Some("first".to_string()));
}

#[test]
fn missing_spec_is_fatal() {
    match plan_run("tag-1", None) {
        RunPlan::Respond(r) => {
            assert_eq!(r.tag, "tag-1");
            assert_eq!(r.results[0].reason.as_deref(), Some("MissingSpec"));
            assert_eq!(r.conditions[0].status, ConditionStatus::False);
        }
        RunPlan::Analyze(_) => panic!("expected a fatal response"),
    }
}

#[test]
fn missing_or_empty_stable_tag_is_fatal() {
    let empty = SpecFields { fields: vec![field("stableTag", FieldValue::Str(String::new()))] };
    let absent = SpecFields { fields: vec![field("cherryPicked", list(&[Some("a")]))] };
    let wrong_kind = SpecFields { fields: vec![field("stableTag", FieldValue::Other)] };
    for s in [empty, absent, wrong_kind] {
        match plan_run("t", Some(&s)) {
            RunPlan::Respond(r) => {
                assert_eq!(r.results[0].reason.as_deref(), Some("MissingStableTag"));
                assert_eq!(r.results[0].message, "spec.stableTag is required");
                assert_eq!(r.conditions[0].reason, "MissingStableTag");
            }
            RunPlan::Analyze(_) => panic!("expected a fatal response"),
        }
    }
}

#[test]
fn spec_with_stable_tag_is_analysed() {
    match plan_run("t", Some(&spec())) {
        RunPlan::Analyze(req) => {
            assert_eq!(req.stable_tag, "v6.12");
            assert_eq!(req.cherry_picked, vec!["abc".to_string(), "def".to_string()]);
            assert_eq!(req.compiled_files, vec!["kernel/fork.c".to_string()]);
        }
        RunPlan::Respond(_) => panic!("expected an analysis"),
    }
}

#[test]
fn response_with_cves() {
    let cves = vec!["CVE-2024-1".to_string(), "CVE-2024-2".to_string()];
    let r = cves_response("tag-9", "v6.11", &cves);
    assert_eq!(r.tag, "tag-9");
    assert_eq!(r.results[0].severity, Severity::Normal);
    assert_eq!(r.results[0].message, "grondig: 2 unfixed CVE(s) for v6.11: CVE-2024-1, CVE-2024-2");
    assert_eq!(r.results[0].reason.as_deref(), Some("CVEsComputed"));
    assert_eq!(r.conditions[0].condition_type, "GrondigReady");
    assert_eq!(r.conditions[0].status, ConditionStatus::True);
    assert_eq!(r.conditions[0].reason, "CVEsComputed");
    assert_eq!(r.conditions[0].message.as_deref(), Some("2 unfixed CVE(s)"));
    assert_eq!(r.cves, Some(cves));
}

#[test]
fn response_without_cves() {
    let r = cves_response("", "v6.12", &vec![]);
    assert_eq!(r.results[0].message, "grondig: no unfixed CVEs for v6.12");
    assert_eq!(r.conditions[0].message.as_deref(), Some("0 unfixed CVE(s)"));
    assert_eq!(r.cves, Some(vec![]));
}

#[test]
fn response_counts_many_cves() {
    let cves: Vec<String> = (0..12).map(|i| format!("CVE-{i}")).collect();
    let r = cves_response("t", "v6.1", &cves);
    assert!(r.results[0].message.starts_with("grondig: 12 unfixed CVE(s) for v6.1: CVE-0, CVE-1, "));
    assert!(r.results[0].message.ends_with("CVE-10, CVE-11"));
    assert_eq!(r.conditions[0].message.as_deref(), Some("12 unfixed CVE(s)"));
}
