//! The CVE rule: which CVEs are still unfixed at a stable release, given
//! what the CVE database records about each CVE, the commits cherry-picked
//! on top of the release and the files that the build compiles.

use vstd::prelude::*;
use crate::ordering;
use crate::text;
use crate::version;

verus! {

/// The strings of `v`, as character sequences.
pub open spec fn views(v: Seq<String>) -> Seq<Seq<char>> {
    v.map_values(|s: String| s@)
}

/// A commit that fixes a CVE: its id and the release that first holds it.
pub struct FixCommit {
    pub sha: String,
    /// The release of the commit; empty when the database does not know it.
    pub version: String,
}

/// A fix commit, as character sequences.
pub struct FixView {
    pub sha: Seq<char>,
    pub version: Seq<char>,
}

impl View for FixCommit {
    type V = FixView;

    open spec fn view(&self) -> FixView {
        FixView { sha: self.sha@, version: self.version@ }
    }
}

/// What the CVE database records about one CVE.
pub struct CveRecord {
    pub cve: String,
    /// The release of each commit that introduced the flaw (empty when unknown).
    pub vuln_versions: Vec<String>,
    /// The commits that fix it.
    pub fixes: Vec<FixCommit>,
    /// The database lists at least one affected file for the CVE.
    pub has_files: bool,
    /// The affected files that the database lists by name.
    pub files: Vec<String>,
}

/// A CVE record, as mathematical values.
pub struct CveView {
    pub cve: Seq<char>,
    pub vulns: Seq<Seq<char>>,
    pub fixes: Seq<FixView>,
    pub has_files: bool,
    pub files: Seq<Seq<char>>,
}

impl View for CveRecord {
    type V = CveView;

    open spec fn view(&self) -> CveView {
        CveView {
            cve: self.cve@,
            vulns: views(self.vuln_versions@),
            fixes: self.fixes@.map_values(|f: FixCommit| f@),
            has_files: self.has_files,
            files: views(self.files@),
        }
    }
}

/// The records of `v`, as mathematical values.
pub open spec fn record_views(v: Seq<CveRecord>) -> Seq<CveView> {
    v.map_values(|r: CveRecord| r@)
}

/// The flaw is present at `target`: no vulnerable commit is known (so every
/// release counts as affected), or one of them is reachable from `target`.
pub open spec fn affected(r: CveView, target: Seq<char>) -> bool {
    r.vulns.len() == 0 || exists|i: int|
        0 <= i < r.vulns.len() && #[trigger] version::reachable(r.vulns[i], target)
}

/// Some fix is in `target`: its release is reachable from `target`, or it
/// was cherry-picked.
pub open spec fn fixed(r: CveView, target: Seq<char>, picks: Seq<Seq<char>>) -> bool {
    exists|j: int|
        0 <= j < r.fixes.len() && (version::reachable(#[trigger] r.fixes[j].version, target)
            || picks.contains(r.fixes[j].sha))
}

/// The CVE is unfixed at `target`: affected and not fixed.
pub open spec fn unfixed(r: CveView, target: Seq<char>, picks: Seq<Seq<char>>) -> bool {
    affected(r, target) && !fixed(r, target, picks)
}

/// The file filter keeps the CVE: no compiled files were given, the database
/// lists no file for it, or one of its files is compiled.
pub open spec fn keeps(r: CveView, files: Seq<Seq<char>>) -> bool {
    files.len() == 0 || !r.has_files || exists|k: int|
        0 <= k < r.files.len() && files.contains(#[trigger] r.files[k])
}

/// The CVE is reported: unfixed at `target` and kept by the file filter.
pub open spec fn is_reported(
    r: CveView,
    target: Seq<char>,
    picks: Seq<Seq<char>>,
    files: Seq<Seq<char>>,
) -> bool {
    unfixed(r, target, picks) && keeps(r, files)
}

/// The names of the reported CVEs, in the order of `recs`.
pub open spec fn reported(
    recs: Seq<CveView>,
    target: Seq<char>,
    picks: Seq<Seq<char>>,
    files: Seq<Seq<char>>,
) -> Seq<Seq<char>>
    decreases recs.len(),
{
    if recs.len() == 0 {
        seq![]
    } else {
        let rest = reported(recs.drop_last(), target, picks, files);
        if is_reported(recs.last(), target, picks, files) {
            rest.push(recs.last().cve)
        } else {
            rest
        }
    }
}

/// A stable tag without its leading `v`, if it has one.
pub open spec fn strip_v(tag: Seq<char>) -> Seq<char> {
    if tag.len() > 0 && tag[0] == 'v' {
        tag.drop_first()
    } else {
        tag
    }
}

/// Whether `s` is one of the strings of `v`.
pub fn contains_string(v: &Vec<String>, s: &String) -> (r: bool)
    ensures
        r == views(v@).contains(s@),
{
    for i in 0..v.len()
        invariant
            forall|k: int| 0 <= k < i ==> v@[k]@ != s@,
    {
        if v[i] == *s {
            assert(views(v@)[i as int] == s@);
            return true;
        }
    }
    assert(!views(v@).contains(s@)) by {
        if views(v@).contains(s@) {
            let k = choose|k: int| 0 <= k < views(v@).len() && views(v@)[k] == s@;
            assert(v@[k]@ == s@);
        }
    }
    false
}

/// Whether one of the releases in `versions` is reachable from `target`.
fn any_reachable(versions: &Vec<String>, target: &str) -> (r: bool)
    ensures
        r == exists|i: int|
            0 <= i < versions@.len() && #[trigger] version::reachable(views(versions@)[i], target@),
{
    for i in 0..versions.len()
        invariant
            forall|k: int| 0 <= k < i ==> !version::reachable(#[trigger] views(versions@)[k], target@),
    {
        if ordering::version_reachable(versions[i].as_str(), target) {
            assert(version::reachable(views(versions@)[i as int], target@));
            return true;
        }
    }
    false
}

/// Whether one of `fixes` is in `target`, by release or by cherry-pick.
fn any_fix_applies(fixes: &Vec<FixCommit>, target: &str, cherry_picks: &Vec<String>) -> (r: bool)
    ensures
        r == exists|j: int|
            0 <= j < fixes@.len() && (version::reachable(#[trigger] fixes@[j].version@, target@)
                || views(cherry_picks@).contains(fixes@[j].sha@)),
{
    for j in 0..fixes.len()
        invariant
            forall|k: int|
                0 <= k < j ==> !(version::reachable(#[trigger] fixes@[k].version@, target@)
                    || views(cherry_picks@).contains(fixes@[k].sha@)),
    {
        let f = &fixes[j];
        if ordering::version_reachable(f.version.as_str(), target) || contains_string(
            cherry_picks,
            &f.sha,
        ) {
            return true;
        }
    }
    false
}

/// Whether the CVE of `record` is unfixed at release `target`, given the
/// commits in `cherry_picks` applied on top of it.
pub fn is_cve_unfixed(record: &CveRecord, target: &str, cherry_picks: &Vec<String>) -> (r: bool)
    ensures
        r == unfixed(record@, target@, views(cherry_picks@)),
{
    let is_affected = record.vuln_versions.len() == 0 || any_reachable(
        &record.vuln_versions,
        target,
    );
    if !is_affected {
        return false;
    }
    let has_fix = any_fix_applies(&record.fixes, target, cherry_picks);
    assert(has_fix == fixed(record@, target@, views(cherry_picks@))) by {
        if has_fix {
            let j = choose|j: int|
                0 <= j < record.fixes@.len() && (version::reachable(
                    #[trigger] record.fixes@[j].version@,
                    target@,
                ) || views(cherry_picks@).contains(record.fixes@[j].sha@));
            assert(record@.fixes[j] == record.fixes@[j]@);
            assert(version::reachable(record@.fixes[j].version, target@) || views(
                cherry_picks@,
            ).contains(record@.fixes[j].sha));
        }
        if fixed(record@, target@, views(cherry_picks@)) {
            let j = choose|j: int|
                0 <= j < record@.fixes.len() && (version::reachable(
                    #[trigger] record@.fixes[j].version,
                    target@,
                ) || views(cherry_picks@).contains(record@.fixes[j].sha));
            assert(record@.fixes[j] == record.fixes@[j]@);
            assert(version::reachable(record.fixes@[j].version@, target@) || views(
                cherry_picks@,
            ).contains(record.fixes@[j].sha@));
        }
    }
    !has_fix
}

/// Whether the file filter keeps the CVE of `record` (see `keeps`).
pub fn passes_file_filter(record: &CveRecord, compiled_files: &Vec<String>) -> (r: bool)
    ensures
        r == keeps(record@, views(compiled_files@)),
{
    if compiled_files.len() == 0 || !record.has_files {
        return true;
    }
    for k in 0..record.files.len()
        invariant
            forall|m: int|
                0 <= m < k ==> !views(compiled_files@).contains(#[trigger] views(record.files@)[m]),
    {
        if contains_string(compiled_files, &record.files[k]) {
            assert(views(record.files@)[k as int] == record.files@[k as int]@);
            assert(views(compiled_files@).contains(record@.files[k as int]));
            return true;
        }
    }
    false
}

} // verus!

verus! {

/// The release that a stable tag names: the tag without its leading `v`.
pub fn release_of_tag(stable_tag: &str) -> (r: String)
    ensures
        r@ == strip_v(stable_tag@),
{
    let cs = text::chars_of(stable_tag);
    if cs.len() > 0 && cs[0] == 'v' {
        let mut rest: Vec<char> = Vec::new();
        for i in 1..cs.len()
            invariant
                cs.len() > 0,
                rest@ == cs@.subrange(1, i as int),
        {
            rest.push(cs[i]);
            assert(cs@.subrange(1, i + 1) =~= cs@.subrange(1, i as int).push(cs@[i as int]));
        }
        assert(cs@.subrange(1, cs.len() as int) =~= cs@.drop_first());
        text::string_of(&rest)
    } else {
        text::string_of(&cs)
    }
}

/// The CVEs of `records` that are unfixed at the release that `stable_tag`
/// names, given `cherry_picks` on top of it, and that the file filter keeps
/// for `compiled_files`; in the order of `records`.
pub fn compute_cves(
    records: &Vec<CveRecord>,
    stable_tag: &str,
    cherry_picks: &Vec<String>,
    compiled_files: &Vec<String>,
) -> (r: Vec<String>)
    ensures
        views(r@) == reported(
            record_views(records@),
            strip_v(stable_tag@),
            views(cherry_picks@),
            views(compiled_files@),
        ),
{
    let target = release_of_tag(stable_tag);
    let ghost recs = record_views(records@);
    let ghost t = strip_v(stable_tag@);
    let ghost picks = views(cherry_picks@);
    let ghost files = views(compiled_files@);
    let mut out: Vec<String> = Vec::new();
    for i in 0..records.len()
        invariant
            recs == record_views(records@),
            t == target@,
            picks == views(cherry_picks@),
            files == views(compiled_files@),
            views(out@) == reported(recs.take(i as int), t, picks, files),
    {
        let rec = &records[i];
        assert(recs.take(i + 1).drop_last() =~= recs.take(i as int));
        assert(recs.take(i + 1).last() == rec@);
        if is_cve_unfixed(rec, target.as_str(), cherry_picks) && passes_file_filter(
            rec,
            compiled_files,
        ) {
            let ghost before = out@;
            out.push(rec.cve.clone());
            assert(views(out@) =~= views(before).push(rec.cve@));
        }
    }
    assert(recs.take(records.len() as int) =~= recs);
    out
}

/// The shas of `raw`, lowercased.
pub fn lowercase_shas(raw: &Vec<String>) -> (r: Vec<String>)
    ensures
        views(r@) == views(raw@).map_values(|s: Seq<char>| text::lowercase(s)),
{
    let mut out: Vec<String> = Vec::new();
    for i in 0..raw.len()
        invariant
            views(out@) == views(raw@).take(i as int).map_values(|s: Seq<char>| text::lowercase(s)),
    {
        let ghost before = out@;
        out.push(text::to_lowercase(raw[i].as_str()));
        assert(views(out@) =~= views(before).push(text::lowercase(raw@[i as int]@)));
        assert(views(raw@).take(i + 1) =~= views(raw@).take(i as int).push(raw@[i as int]@));
        assert(views(out@) =~= views(raw@).take(i + 1).map_values(|s: Seq<char>| text::lowercase(s)));
    }
    assert(views(raw@).take(raw.len() as int) =~= views(raw@));
    out
}

/// Each cherry-picked sha followed by its mainline equivalent.
pub open spec fn expanded(shas: Seq<Seq<char>>, mainline: Seq<Seq<char>>) -> Seq<Seq<char>>
    decreases shas.len(),
{
    if shas.len() == 0 || mainline.len() == 0 {
        seq![]
    } else {
        expanded(shas.drop_last(), mainline.drop_last()).push(shas.last()).push(mainline.last())
    }
}

proof fn lemma_expanded_contains(shas: Seq<Seq<char>>, mainline: Seq<Seq<char>>, x: Seq<char>)
    requires
        shas.len() == mainline.len(),
    ensures
        expanded(shas, mainline).contains(x) <==> (shas.contains(x) || mainline.contains(x)),
    decreases shas.len(),
{
    if shas.len() > 0 {
        let s0 = shas.drop_last();
        let m0 = mainline.drop_last();
        lemma_expanded_contains(s0, m0, x);
        let e0 = expanded(s0, m0);
        let e = expanded(shas, mainline);
        assert(e == e0.push(shas.last()).push(mainline.last()));
        assert(shas =~= s0.push(shas.last()));
        assert(mainline =~= m0.push(mainline.last()));
        if e.contains(x) {
            let k = choose|k: int| 0 <= k < e.len() && e[k] == x;
            if k < e0.len() {
                assert(e0[k] == x);
            }
        }
        if e0.contains(x) {
            let k = choose|k: int| 0 <= k < e0.len() && e0[k] == x;
            assert(e[k] == x);
        }
        if s0.contains(x) {
            let k = choose|k: int| 0 <= k < s0.len() && s0[k] == x;
            assert(shas[k] == x);
        }
        if m0.contains(x) {
            let k = choose|k: int| 0 <= k < m0.len() && m0[k] == x;
            assert(mainline[k] == x);
        }
        if shas.contains(x) {
            let k = choose|k: int| 0 <= k < shas.len() && shas[k] == x;
            if k < s0.len() {
                assert(s0[k] == x);
            } else {
                assert(e[e.len() - 2] == x);
            }
        }
        if mainline.contains(x) {
            let k = choose|k: int| 0 <= k < mainline.len() && mainline[k] == x;
            if k < m0.len() {
                assert(m0[k] == x);
            } else {
                assert(e[e.len() - 1] == x);
            }
        }
    }
}

/// The cherry-picks to check fixes against: each lowercased sha of `shas`
/// and the mainline commit it stands for, `mainline[i]` for `shas[i]`.
pub fn expand_cherry_picks(shas: &Vec<String>, mainline: &Vec<String>) -> (r: Vec<String>)
    requires
        shas.len() == mainline.len(),
    ensures
        views(r@) == expanded(views(shas@), views(mainline@)),
        forall|x: Seq<char>|
            #[trigger] views(r@).contains(x) <==> (views(shas@).contains(x) || views(
                mainline@,
            ).contains(x)),
{
    let mut out: Vec<String> = Vec::new();
    for i in 0..shas.len()
        invariant
            shas.len() == mainline.len(),
            views(out@) == expanded(views(shas@).take(i as int), views(mainline@).take(i as int)),
    {
        let ghost before = out@;
        out.push(shas[i].clone());
        out.push(mainline[i].clone());
        assert(views(shas@).take(i + 1).drop_last() =~= views(shas@).take(i as int));
        assert(views(mainline@).take(i + 1).drop_last() =~= views(mainline@).take(i as int));
        assert(views(out@) =~= views(before).push(shas@[i as int]@).push(mainline@[i as int]@));
    }
    assert(views(shas@).take(shas.len() as int) =~= views(shas@));
    assert(views(mainline@).take(mainline.len() as int) =~= views(mainline@));
    assert forall|x: Seq<char>|
        #[trigger] views(out@).contains(x) <==> (views(shas@).contains(x) || views(
            mainline@,
        ).contains(x)) by {
        lemma_expanded_contains(views(shas@), views(mainline@), x);
    }
    out
}

} // verus!

verus! {

proof fn lemma_reported_narrows(
    recs: Seq<CveView>,
    t: Seq<char>,
    p1: Seq<Seq<char>>,
    f1: Seq<Seq<char>>,
    p2: Seq<Seq<char>>,
    f2: Seq<Seq<char>>,
)
    requires
        forall|i: int|
            0 <= i < recs.len() && #[trigger] is_reported(recs[i], t, p2, f2) ==> is_reported(
                recs[i],
                t,
                p1,
                f1,
            ),
    ensures
        reported(recs, t, p2, f2).len() <= reported(recs, t, p1, f1).len(),
        forall|x: Seq<char>|
            #[trigger] reported(recs, t, p2, f2).contains(x) ==> reported(recs, t, p1, f1).contains(x),
    decreases recs.len(),
{
    if recs.len() > 0 {
        let r0 = recs.drop_last();
        assert forall|i: int|
            0 <= i < r0.len() && #[trigger] is_reported(r0[i], t, p2, f2) implies is_reported(
            r0[i],
            t,
            p1,
            f1,
        ) by {
            assert(r0[i] == recs[i]);
        }
        lemma_reported_narrows(r0, t, p1, f1, p2, f2);
        let a = reported(r0, t, p2, f2);
        let b = reported(r0, t, p1, f1);
        let last = recs.last();
        assert(is_reported(recs[recs.len() - 1], t, p2, f2) ==> is_reported(
            recs[recs.len() - 1],
            t,
            p1,
            f1,
        ));
        assert forall|x: Seq<char>|
            #[trigger] reported(recs, t, p2, f2).contains(x) implies reported(
            recs,
            t,
            p1,
            f1,
        ).contains(x) by {
            let big_a = reported(recs, t, p2, f2);
            let big_b = reported(recs, t, p1, f1);
            let k = choose|k: int| 0 <= k < big_a.len() && big_a[k] == x;
            if k < a.len() {
                assert(a[k] == x);
                assert(a.contains(x));
                assert(b.contains(x));
                let m = choose|m: int| 0 <= m < b.len() && b[m] == x;
                assert(big_b[m] == x);
            } else {
                assert(x == last.cve);
                assert(big_b[big_b.len() - 1] == x);
            }
        }
    }
}

/// The file filter only ever removes CVEs: every CVE reported for some
/// compiled files is also reported when no compiled files are given, and no
/// more CVEs are reported than then.
pub proof fn lemma_file_filter_narrows(
    recs: Seq<CveView>,
    target: Seq<char>,
    picks: Seq<Seq<char>>,
    files: Seq<Seq<char>>,
)
    ensures
        reported(recs, target, picks, files).len() <= reported(recs, target, picks, seq![]).len(),
        forall|x: Seq<char>|
            #[trigger] reported(recs, target, picks, files).contains(x) ==> reported(
                recs,
                target,
                picks,
                seq![],
            ).contains(x),
{
    lemma_reported_narrows(recs, target, picks, seq![], picks, files);
}

/// More cherry-picks only ever remove CVEs: with every commit of `picks`
/// also in `more_picks`, each CVE reported with `more_picks` is reported with
/// `picks`, and no more CVEs are reported than with `picks`.
pub proof fn lemma_cherry_picks_narrow(
    recs: Seq<CveView>,
    target: Seq<char>,
    picks: Seq<Seq<char>>,
    more_picks: Seq<Seq<char>>,
    files: Seq<Seq<char>>,
)
    requires
        forall|x: Seq<char>| #[trigger] picks.contains(x) ==> more_picks.contains(x),
    ensures
        reported(recs, target, more_picks, files).len() <= reported(recs, target, picks, files).len(),
        forall|x: Seq<char>|
            #[trigger] reported(recs, target, more_picks, files).contains(x) ==> reported(
                recs,
                target,
                picks,
                files,
            ).contains(x),
{
    assert forall|i: int|
        0 <= i < recs.len() && #[trigger] is_reported(recs[i], target, more_picks, files) implies is_reported(
        recs[i],
        target,
        picks,
        files,
    ) by {
        let r = recs[i];
        if fixed(r, target, picks) {
            let j = choose|j: int|
                0 <= j < r.fixes.len() && (version::reachable(#[trigger] r.fixes[j].version, target)
                    || picks.contains(r.fixes[j].sha));
            assert(version::reachable(r.fixes[j].version, target) || more_picks.contains(
                r.fixes[j].sha,
            ));
        }
    }
    lemma_reported_narrows(recs, target, picks, files, more_picks, files);
}

} // verus!

verus! {

/// A CVE is unfixed at `target` as soon as one of its vulnerable releases
/// is reachable from `target` and none of its fixes is in `target` (by
/// release or by cherry-pick); the other vulnerable releases do not matter.
pub proof fn lemma_one_vulnerable_release_suffices(
    r: CveView,
    target: Seq<char>,
    picks: Seq<Seq<char>>,
    i: int,
)
    requires
        0 <= i < r.vulns.len(),
        version::reachable(r.vulns[i], target),
        forall|j: int|
            0 <= j < r.fixes.len() ==> !version::reachable(#[trigger] r.fixes[j].version, target)
                && !picks.contains(r.fixes[j].sha),
    ensures
        unfixed(r, target, picks),
{
}

/// A CVE with no known vulnerable release counts as affected everywhere:
/// it is unfixed exactly when none of its fixes is in `target`.
pub proof fn lemma_unknown_vulnerable_release(r: CveView, target: Seq<char>, picks: Seq<Seq<char>>)
    requires
        r.vulns.len() == 0,
    ensures
        unfixed(r, target, picks) <==> forall|j: int|
            0 <= j < r.fixes.len() ==> !version::reachable(#[trigger] r.fixes[j].version, target)
                && !picks.contains(r.fixes[j].sha),
{
    if !fixed(r, target, picks) {
        assert forall|j: int| 0 <= j < r.fixes.len() implies !version::reachable(
            #[trigger] r.fixes[j].version,
            target,
        ) && !picks.contains(r.fixes[j].sha) by {
            assert(!version::reachable(r.fixes[j].version, target));
            assert(!picks.contains(r.fixes[j].sha));
        }
    } else {
        let j = choose|j: int|
            0 <= j < r.fixes.len() && (version::reachable(#[trigger] r.fixes[j].version, target)
                || picks.contains(r.fixes[j].sha));
        assert(version::reachable(r.fixes[j].version, target) || picks.contains(r.fixes[j].sha));
    }
}

/// An unfixed CVE has a vulnerable release reachable from `target` (or
/// none known), and none of its fixes is in `target`.
pub proof fn lemma_unfixed_means(r: CveView, target: Seq<char>, picks: Seq<Seq<char>>)
    requires
        unfixed(r, target, picks),
    ensures
        r.vulns.len() == 0 || exists|i: int|
            0 <= i < r.vulns.len() && #[trigger] version::reachable(r.vulns[i], target),
        forall|j: int|
            0 <= j < r.fixes.len() ==> !version::reachable(#[trigger] r.fixes[j].version, target)
                && !picks.contains(r.fixes[j].sha),
{
    assert(!fixed(r, target, picks));
    assert forall|j: int| 0 <= j < r.fixes.len() implies !version::reachable(
        #[trigger] r.fixes[j].version,
        target,
    ) && !picks.contains(r.fixes[j].sha) by {
        assert(!version::reachable(r.fixes[j].version, target));
        assert(!picks.contains(r.fixes[j].sha));
    }
}

/// Recording one more vulnerable release never turns an unfixed CVE into a
/// fixed one (when at least one vulnerable release was known already).
pub proof fn lemma_more_vulnerable_releases(
    r: CveView,
    v: Seq<char>,
    target: Seq<char>,
    picks: Seq<Seq<char>>,
)
    requires
        r.vulns.len() > 0,
        unfixed(r, target, picks),
    ensures
        unfixed(
            CveView {
                cve: r.cve,
                vulns: r.vulns.push(v),
                fixes: r.fixes,
                has_files: r.has_files,
                files: r.files,
            },
            target,
            picks,
        ),
{
    let i = choose|i: int| 0 <= i < r.vulns.len() && #[trigger] version::reachable(r.vulns[i], target);
    assert(r.vulns.push(v)[i] == r.vulns[i]);
}

/// The file filter keeps a CVE whenever one of its listed files is compiled.
pub proof fn lemma_compiled_file_keeps(r: CveView, files: Seq<Seq<char>>, k: int)
    requires
        0 <= k < r.files.len(),
        files.contains(r.files[k]),
    ensures
        keeps(r, files),
{
}

/// The file filter keeps every CVE when no compiled files are given, and
/// every CVE for which the database lists no file.
pub proof fn lemma_filter_keeps_unlisted(r: CveView, files: Seq<Seq<char>>)
    ensures
        keeps(r, seq![]),
        !r.has_files ==> keeps(r, files),
{
}

/// A CVE that the filter drops has listed files, compiled files were given,
/// and none of its listed files is compiled.
pub proof fn lemma_filter_drops_means(r: CveView, files: Seq<Seq<char>>)
    requires
        !keeps(r, files),
    ensures
        files.len() > 0,
        r.has_files,
        forall|k: int| 0 <= k < r.files.len() ==> !files.contains(#[trigger] r.files[k]),
{
}

/// A CVE name is reported exactly when some record of that name is unfixed
/// and kept by the file filter.
pub proof fn lemma_reported_members(
    recs: Seq<CveView>,
    target: Seq<char>,
    picks: Seq<Seq<char>>,
    files: Seq<Seq<char>>,
    x: Seq<char>,
)
    ensures
        reported(recs, target, picks, files).contains(x) <==> exists|i: int|
            0 <= i < recs.len() && recs[i].cve == x && unfixed(#[trigger] recs[i], target, picks)
                && keeps(recs[i], files),
    decreases recs.len(),
{
    if recs.len() > 0 {
        let r0 = recs.drop_last();
        lemma_reported_members(r0, target, picks, files, x);
        let rest = reported(r0, target, picks, files);
        let all = reported(recs, target, picks, files);
        let last = recs.last();
        if all.contains(x) {
            let k = choose|k: int| 0 <= k < all.len() && all[k] == x;
            if k < rest.len() {
                assert(rest[k] == x);
                assert(rest.contains(x));
                let i = choose|i: int|
                    0 <= i < r0.len() && r0[i].cve == x && unfixed(#[trigger] r0[i], target, picks)
                        && keeps(r0[i], files);
                assert(recs[i] == r0[i]);
            } else {
                assert(recs[recs.len() - 1] == last);
            }
        }
        if exists|i: int|
            0 <= i < recs.len() && recs[i].cve == x && unfixed(#[trigger] recs[i], target, picks)
                && keeps(recs[i], files) {
            let i = choose|i: int|
                0 <= i < recs.len() && recs[i].cve == x && unfixed(#[trigger] recs[i], target, picks)
                    && keeps(recs[i], files);
            if i < r0.len() {
                assert(r0[i] == recs[i]);
                assert(rest.contains(x));
                let k = choose|k: int| 0 <= k < rest.len() && rest[k] == x;
                assert(all[k] == x);
            } else {
                assert(all[all.len() - 1] == x);
            }
        }
    }
}

/// An unfixed CVE for which the database lists no file is reported whatever
/// compiled files are given.
pub proof fn lemma_unlisted_cve_reported(
    recs: Seq<CveView>,
    target: Seq<char>,
    picks: Seq<Seq<char>>,
    files: Seq<Seq<char>>,
    i: int,
)
    requires
        0 <= i < recs.len(),
        !recs[i].has_files,
        unfixed(recs[i], target, picks),
    ensures
        reported(recs, target, picks, files).contains(recs[i].cve),
{
    lemma_reported_members(recs, target, picks, files, recs[i].cve);
}

/// When the database lists no file for any of the CVEs, the compiled files
/// change nothing: the report is the same as with no compiled files.
pub proof fn lemma_files_irrelevant_without_listed_files(
    recs: Seq<CveView>,
    target: Seq<char>,
    picks: Seq<Seq<char>>,
    files: Seq<Seq<char>>,
)
    requires
        forall|i: int| 0 <= i < recs.len() ==> !(#[trigger] recs[i]).has_files,
    ensures
        reported(recs, target, picks, files) == reported(recs, target, picks, seq![]),
    decreases recs.len(),
{
    if recs.len() > 0 {
        let r0 = recs.drop_last();
        assert forall|i: int| 0 <= i < r0.len() implies !(#[trigger] r0[i]).has_files by {
            assert(r0[i] == recs[i]);
        }
        lemma_files_irrelevant_without_listed_files(r0, target, picks, files);
        assert(!recs[recs.len() - 1].has_files);
    }
}

} // verus!
