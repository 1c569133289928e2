//! The composition function's decisions: reading the SBOM inputs from the
//! observed resource's spec, and the response it gives, fatal or with the
//! unfixed CVEs.

use vstd::prelude::*;
use crate::cve;
use crate::text;

verus! {

/// How severe a result is.
#[derive(Debug, Clone, Copy, PartialEq, Eq)]
pub enum Severity {
    Unspecified,
    Fatal,
    Normal,
    Warning,
}

/// What a result or condition is about.
#[derive(Debug, Clone, Copy, PartialEq, Eq)]
pub enum Target {
    Composite,
    CompositeAndClaim,
}

/// The status of a condition.
#[derive(Debug, Clone, Copy, PartialEq, Eq)]
pub enum ConditionStatus {
    Unspecified,
    Unknown,
    True,
    False,
}

/// One result of a function run.
pub struct FnResult {
    pub severity: Severity,
    pub message: String,
    pub reason: Option<String>,
    pub target: Option<Target>,
}

/// One condition that a function run sets.
pub struct Condition {
    pub condition_type: String,
    pub status: ConditionStatus,
    pub reason: String,
    pub message: Option<String>,
    pub target: Option<Target>,
}

/// The response of a function run. `cves` is the list to hand on to the
/// functions that follow, under the context key `grondig/cves`; `None` when
/// the run ended without an analysis.
pub struct RunFunctionResponse {
    pub tag: String,
    pub results: Vec<FnResult>,
    pub conditions: Vec<Condition>,
    pub cves: Option<Vec<String>>,
}

/// An optional string, as characters.
pub open spec fn opt_view(o: Option<String>) -> Option<Seq<char>> {
    match o {
        Some(s) => Some(s@),
        None => None,
    }
}

/// A result, as mathematical values.
pub struct FnResultView {
    pub severity: Severity,
    pub message: Seq<char>,
    pub reason: Option<Seq<char>>,
    pub target: Option<Target>,
}

/// A condition, as mathematical values.
pub struct ConditionView {
    pub condition_type: Seq<char>,
    pub status: ConditionStatus,
    pub reason: Seq<char>,
    pub message: Option<Seq<char>>,
    pub target: Option<Target>,
}

/// A response, as mathematical values.
pub struct ResponseView {
    pub tag: Seq<char>,
    pub results: Seq<FnResultView>,
    pub conditions: Seq<ConditionView>,
    pub cves: Option<Seq<Seq<char>>>,
}

impl View for FnResult {
    type V = FnResultView;

    open spec fn view(&self) -> FnResultView {
        FnResultView {
            severity: self.severity,
            message: self.message@,
            reason: opt_view(self.reason),
            target: self.target,
        }
    }
}

impl View for Condition {
    type V = ConditionView;

    open spec fn view(&self) -> ConditionView {
        ConditionView {
            condition_type: self.condition_type@,
            status: self.status,
            reason: self.reason@,
            message: opt_view(self.message),
            target: self.target,
        }
    }
}

impl View for RunFunctionResponse {
    type V = ResponseView;

    open spec fn view(&self) -> ResponseView {
        ResponseView {
            tag: self.tag@,
            results: self.results@.map_values(|r: FnResult| r@),
            conditions: self.conditions@.map_values(|c: Condition| c@),
            cves: match self.cves {
                Some(v) => Some(cve::views(v@)),
                None => None,
            },
        }
    }
}

/// The type of the condition that the function sets.
pub open spec fn ready_type() -> Seq<char> {
    "GrondigReady"@
}

/// The response of a run that ends with `reason` and `message`: one fatal
/// result and the ready condition set to false, both with that reason and
/// message.
pub open spec fn fatal_view(tag: Seq<char>, reason: Seq<char>, message: Seq<char>) -> ResponseView {
    ResponseView {
        tag,
        results: seq![
            FnResultView {
                severity: Severity::Fatal,
                message,
                reason: Some(reason),
                target: Some(Target::Composite),
            },
        ],
        conditions: seq![
            ConditionView {
                condition_type: ready_type(),
                status: ConditionStatus::False,
                reason,
                message: Some(message),
                target: Some(Target::Composite),
            },
        ],
        cves: None,
    }
}

/// The response of a run that ends with `reason` and `message`.
pub fn fatal(tag: &str, reason: &str, message: &str) -> (r: RunFunctionResponse)
    ensures
        r@ == fatal_view(tag@, reason@, message@),
{
    let result = FnResult {
        severity: Severity::Fatal,
        message: text::owned(message),
        reason: Some(text::owned(reason)),
        target: Some(Target::Composite),
    };
    let condition = Condition {
        condition_type: text::owned("GrondigReady"),
        status: ConditionStatus::False,
        reason: text::owned(reason),
        message: Some(text::owned(message)),
        target: Some(Target::Composite),
    };
    let r = RunFunctionResponse {
        tag: text::owned(tag),
        results: vec![result],
        conditions: vec![condition],
        cves: None,
    };
    assert(r@.results =~= fatal_view(tag@, reason@, message@).results);
    assert(r@.conditions =~= fatal_view(tag@, reason@, message@).conditions);
    r
}

} // verus!

verus! {

/// The value of one field of the observed resource's spec, as far as the
/// function reads it: a string, a list (each item a string or not), or
/// anything else.
pub enum FieldValue {
    Str(String),
    List(Vec<Option<String>>),
    Other,
}

/// One field of the spec.
pub struct Field {
    pub key: String,
    pub value: FieldValue,
}

/// The fields of the observed resource's spec.
pub struct SpecFields {
    pub fields: Vec<Field>,
}

/// The value of the first field named `key`.
pub open spec fn lookup(fields: Seq<Field>, key: Seq<char>) -> Option<FieldValue>
    decreases fields.len(),
{
    if fields.len() == 0 {
        None
    } else if fields[0].key@ == key {
        Some(fields[0].value)
    } else {
        lookup(fields.drop_first(), key)
    }
}

/// The string items of a list, in order.
pub open spec fn string_items(items: Seq<Option<String>>) -> Seq<Seq<char>>
    decreases items.len(),
{
    if items.len() == 0 {
        seq![]
    } else {
        let rest = string_items(items.drop_last());
        match items.last() {
            Some(s) => rest.push(s@),
            None => rest,
        }
    }
}

/// The string that field `key` holds, if it holds one.
pub open spec fn field_text(spec: SpecFields, key: Seq<char>) -> Option<Seq<char>> {
    match lookup(spec.fields@, key) {
        Some(FieldValue::Str(s)) => Some(s@),
        _ => None,
    }
}

/// The strings of the list that field `key` holds; empty when it holds no list.
pub open spec fn field_strings(spec: SpecFields, key: Seq<char>) -> Seq<Seq<char>> {
    match lookup(spec.fields@, key) {
        Some(FieldValue::List(items)) => string_items(items@),
        _ => seq![],
    }
}

/// The index of the first field named `key`.
fn position(spec: &SpecFields, key: &str) -> (r: Option<usize>)
    ensures
        match r {
            Some(i) => i < spec.fields.len() && lookup(spec.fields@, key@) == Some(
                spec.fields@[i as int].value,
            ),
            None => lookup(spec.fields@, key@) is None,
        },
{
    let k = text::owned(key);
    let ghost fs = spec.fields@;
    assert(fs.skip(0) =~= fs);
    for i in 0..spec.fields.len()
        invariant
            fs == spec.fields@,
            k@ == key@,
            lookup(fs, key@) == lookup(fs.skip(i as int), key@),
    {
        assert(fs.skip(i as int)[0] == fs[i as int]);
        assert(fs.skip(i as int).drop_first() =~= fs.skip(i + 1));
        if spec.fields[i].key == k {
            return Some(i);
        }
    }
    assert(fs.skip(fs.len() as int) =~= Seq::<Field>::empty());
    None
}

/// The string that field `key` holds, if it holds one.
pub fn str_field(spec: &SpecFields, key: &str) -> (r: Option<String>)
    ensures
        opt_view(r) == field_text(*spec, key@),
{
    match position(spec, key) {
        Some(i) => match &spec.fields[i].value {
            FieldValue::Str(s) => Some(s.clone()),
            _ => None,
        },
        None => None,
    }
}

/// The strings of the list that field `key` holds; empty when the field is
/// missing or holds no list. Items that are not strings are left out.
pub fn str_list(spec: &SpecFields, key: &str) -> (r: Vec<String>)
    ensures
        cve::views(r@) == field_strings(*spec, key@),
{
    let mut out: Vec<String> = Vec::new();
    match position(spec, key) {
        Some(i) => match &spec.fields[i].value {
            FieldValue::List(items) => {
                for j in 0..items.len()
                    invariant
                        cve::views(out@) == string_items(items@.take(j as int)),
                {
                    assert(items@.take(j + 1).drop_last() =~= items@.take(j as int));
                    match &items[j] {
                        Some(s) => {
                            let ghost before = out@;
                            out.push(s.clone());
                            assert(cve::views(out@) =~= cve::views(before).push(s@));
                        },
                        None => {},
                    }
                }
                assert(items@.take(items.len() as int) =~= items@);
            },
            _ => {},
        },
        None => {},
    }
    out
}

/// The SBOM inputs of one run.
pub struct SbomRequest {
    pub stable_tag: String,
    pub cherry_picked: Vec<String>,
    pub compiled_files: Vec<String>,
}

/// What a run does: answer at once, or analyse the SBOM inputs.
pub enum RunPlan {
    Respond(RunFunctionResponse),
    Analyze(SbomRequest),
}

/// What a run with meta tag `tag` does with the observed resource's spec:
/// without a spec it fails with `MissingSpec`; with an empty or missing
/// `stableTag` it fails with `MissingStableTag`; otherwise it analyses the
/// stable tag with the `cherryPicked` and `compiledFiles` lists.
pub fn plan_run(tag: &str, spec: Option<&SpecFields>) -> (r: RunPlan)
    ensures
        spec is None ==> (r matches RunPlan::Respond(resp) && resp@ == fatal_view(
            tag@,
            "MissingSpec"@,
            "observed composite resource has no spec"@,
        )),
        spec matches Some(s) ==> match field_text(*s, "stableTag"@) {
            Some(t) if t.len() != 0 => (r matches RunPlan::Analyze(req) && req.stable_tag@ == t
                && cve::views(req.cherry_picked@) == field_strings(*s, "cherryPicked"@)
                && cve::views(req.compiled_files@) == field_strings(*s, "compiledFiles"@)),
            _ => (r matches RunPlan::Respond(resp) && resp@ == fatal_view(
                tag@,
                "MissingStableTag"@,
                "spec.stableTag is required"@,
            )),
        },
{
    match spec {
        None => RunPlan::Respond(
            fatal(tag, "MissingSpec", "observed composite resource has no spec"),
        ),
        Some(s) => {
            let stable_tag = match str_field(s, "stableTag") {
                Some(t) => t,
                None => String::new(),
            };
            if stable_tag.as_str().is_empty() {
                return RunPlan::Respond(
                    fatal(tag, "MissingStableTag", "spec.stableTag is required"),
                );
            }
            RunPlan::Analyze(
                SbomRequest {
                    stable_tag,
                    cherry_picked: str_list(s, "cherryPicked"),
                    compiled_files: str_list(s, "compiledFiles"),
                },
            )
        },
    }
}

} // verus!

verus! {

/// The items joined with `sep` between each two.
pub open spec fn joined(items: Seq<Seq<char>>, sep: Seq<char>) -> Seq<char>
    decreases items.len(),
{
    if items.len() == 0 {
        seq![]
    } else if items.len() == 1 {
        items[0]
    } else {
        joined(items.drop_last(), sep) + sep + items.last()
    }
}

/// The result message of an analysis of `stable_tag` that found `cves`.
pub open spec fn cves_message(stable_tag: Seq<char>, cves: Seq<Seq<char>>) -> Seq<char> {
    if cves.len() == 0 {
        "grondig: no unfixed CVEs for "@ + stable_tag
    } else {
        "grondig: "@ + text::decimal(cves.len()) + " unfixed CVE(s) for "@ + stable_tag + ": "@
            + joined(cves, ", "@)
    }
}

/// The condition message of an analysis that found `n` CVEs.
pub open spec fn count_message(n: nat) -> Seq<char> {
    text::decimal(n) + " unfixed CVE(s)"@
}

/// The response of a run that analysed `stable_tag` and found `cves`: one
/// normal result with the list, the ready condition set to true, and the
/// list handed on.
pub open spec fn analysis_view(tag: Seq<char>, stable_tag: Seq<char>, cves: Seq<Seq<char>>) -> ResponseView {
    ResponseView {
        tag,
        results: seq![
            FnResultView {
                severity: Severity::Normal,
                message: cves_message(stable_tag, cves),
                reason: Some("CVEsComputed"@),
                target: Some(Target::Composite),
            },
        ],
        conditions: seq![
            ConditionView {
                condition_type: ready_type(),
                status: ConditionStatus::True,
                reason: "CVEsComputed"@,
                message: Some(count_message(cves.len())),
                target: Some(Target::Composite),
            },
        ],
        cves: Some(cves),
    }
}

/// The result message of an analysis of `stable_tag` that found `cves`.
fn analysis_message(stable_tag: &str, cves: &Vec<String>) -> (r: String)
    ensures
        r@ == cves_message(stable_tag@, cve::views(cves@)),
{
    let mut out: Vec<char> = Vec::new();
    if cves.len() == 0 {
        text::push_str(&mut out, "grondig: no unfixed CVEs for ");
        text::push_str(&mut out, stable_tag);
        return text::string_of(&out);
    }
    text::push_str(&mut out, "grondig: ");
    text::push_decimal(&mut out, cves.len() as u64);
    text::push_str(&mut out, " unfixed CVE(s) for ");
    text::push_str(&mut out, stable_tag);
    text::push_str(&mut out, ": ");
    let ghost head = out@;
    let ghost items = cve::views(cves@);
    for i in 0..cves.len()
        invariant
            items == cve::views(cves@),
            out@ == head + joined(items.take(i as int), ", "@),
    {
        assert(items.take(i + 1).drop_last() =~= items.take(i as int));
        assert(items.take(i + 1).last() == cves@[i as int]@);
        if i > 0 {
            text::push_str(&mut out, ", ");
        } else {
            assert(joined(items.take(0), ", "@) =~= Seq::<char>::empty());
            assert(items.take(1) =~= seq![items[0]]);
        }
        text::push_str(&mut out, cves[i].as_str());
    }
    assert(items.take(cves.len() as int) =~= items);
    text::string_of(&out)
}

/// The response of a run with meta tag `tag` that analysed `stable_tag` and
/// found `cves`.
pub fn cves_response(tag: &str, stable_tag: &str, cves: &Vec<String>) -> (r: RunFunctionResponse)
    ensures
        r@ == analysis_view(tag@, stable_tag@, cve::views(cves@)),
{
    let mut count: Vec<char> = Vec::new();
    text::push_decimal(&mut count, cves.len() as u64);
    text::push_str(&mut count, " unfixed CVE(s)");
    let result = FnResult {
        severity: Severity::Normal,
        message: analysis_message(stable_tag, cves),
        reason: Some(text::owned("CVEsComputed")),
        target: Some(Target::Composite),
    };
    let condition = Condition {
        condition_type: text::owned("GrondigReady"),
        status: ConditionStatus::True,
        reason: text::owned("CVEsComputed"),
        message: Some(text::string_of(&count)),
        target: Some(Target::Composite),
    };
    let r = RunFunctionResponse {
        tag: text::owned(tag),
        results: vec![result],
        conditions: vec![condition],
        cves: Some(cves.clone()),
    };
    assert(r@.results =~= analysis_view(tag@, stable_tag@, cve::views(cves@)).results);
    assert(r@.conditions =~= analysis_view(tag@, stable_tag@, cve::views(cves@)).conditions);
    r
}

} // verus!
