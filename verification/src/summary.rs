//! The summary cards shown above an analysis result.
use vstd::prelude::*;

use crate::findings::{opt_str, FindingView, WebFinding};
use crate::mode::{mode_name, WebMode};
use crate::order::views;
use crate::severity::{bucket, bucket_of, Bucket};
use crate::text::{chars_equal, chars_of, decimal, decimal_string};
use crate::warnings::WebWarning;

verus! {

/// One summary card: a label and a value.
pub struct SummaryCard {
    pub label: String,
    pub value: String,
}

/// How many elements of `s` satisfy `p`.
pub open spec fn count_where<A>(s: Seq<A>, p: spec_fn(A) -> bool) -> nat
    decreases s.len(),
{
    if s.len() == 0 {
        0
    } else {
        count_where(s.drop_last(), p) + if p(s.last()) {
            1nat
        } else {
            0nat
        }
    }
}

/// The kinds of the findings, in order.
pub open spec fn kinds(findings: Seq<FindingView>) -> Seq<Seq<char>> {
    findings.map_values(|f: FindingView| f.kind)
}

/// How many different kinds the findings have.
pub open spec fn unique_kind_count(findings: Seq<FindingView>) -> nat {
    kinds(findings).to_set().len()
}

/// How many findings have a high severity.
pub open spec fn high_severity_count(findings: Seq<FindingView>) -> nat {
    count_where(findings, |f: FindingView| bucket_of(f.severity) == Bucket::High)
}

/// How many findings have a high confidence.
pub open spec fn high_confidence_count(findings: Seq<FindingView>) -> nat {
    count_where(findings, |f: FindingView| bucket_of(f.confidence) == Bucket::High)
}

/// How many warnings are shown by default.
pub open spec fn shown_warning_count(warnings: Seq<WebWarning>) -> nat {
    count_where(warnings, |w: WebWarning| !w.suppressed_by_default)
}

/// The (label, value) texts of the six cards, in order.
pub open spec fn summary_texts(mode: WebMode, findings: Seq<FindingView>, warnings: Seq<
    WebWarning,
>) -> Seq<(Seq<char>, Seq<char>)> {
    seq![
        ("Mode"@, mode_name(mode)),
        ("Displayed Findings"@, decimal(findings.len())),
        ("Unique Kinds"@, decimal(unique_kind_count(findings))),
        ("High Severity"@, decimal(high_severity_count(findings))),
        ("High Confidence"@, decimal(high_confidence_count(findings))),
        ("Warnings"@, decimal(shown_warning_count(warnings))),
    ]
}

proof fn lemma_count_where_bound<A>(s: Seq<A>, p: spec_fn(A) -> bool)
    ensures
        count_where(s, p) <= s.len(),
    decreases s.len(),
{
    if s.len() > 0 {
        lemma_count_where_bound(s.drop_last(), p);
    }
}

/// How many findings have a high label, severity or confidence.
fn count_high(findings: &[WebFinding], by_confidence: bool) -> (n: usize)
    ensures
        by_confidence ==> n == high_confidence_count(views(findings@)),
        !by_confidence ==> n == high_severity_count(views(findings@)),
{
    let ghost fs = views(findings@);
    let ghost p = if by_confidence {
        |f: FindingView| bucket_of(f.confidence) == Bucket::High
    } else {
        |f: FindingView| bucket_of(f.severity) == Bucket::High
    };
    let mut n: usize = 0;
    let mut i: usize = 0;
    while i < findings.len()
        invariant
            i <= findings@.len(),
            fs == views(findings@),
            by_confidence ==> p == (|f: FindingView| bucket_of(f.confidence) == Bucket::High),
            !by_confidence ==> p == (|f: FindingView| bucket_of(f.severity) == Bucket::High),
            n == count_where(fs.take(i as int), p),
        decreases findings@.len() - i,
    {
        proof {
            assert(fs.take(i + 1).drop_last() == fs.take(i as int));
            assert(fs.take(i + 1).last() == findings@[i as int]@);
            lemma_count_where_bound(fs.take(i as int), p);
        }
        let label = if by_confidence {
            opt_str(&findings[i].confidence)
        } else {
            opt_str(&findings[i].severity)
        };
        if bucket(label) == Bucket::High {
            n = n + 1;
        }
        i = i + 1;
    }
    assert(fs.take(findings@.len() as int) == fs);
    n
}

/// How many warnings are shown by default.
fn count_shown(warnings: &[WebWarning]) -> (n: usize)
    ensures
        n == shown_warning_count(warnings@),
{
    let ghost p = |w: WebWarning| !w.suppressed_by_default;
    let mut n: usize = 0;
    let mut i: usize = 0;
    while i < warnings.len()
        invariant
            i <= warnings@.len(),
            p == (|w: WebWarning| !w.suppressed_by_default),
            n == count_where(warnings@.take(i as int), p),
        decreases warnings@.len() - i,
    {
        proof {
            assert(warnings@.take(i + 1).drop_last() == warnings@.take(i as int));
            lemma_count_where_bound(warnings@.take(i as int), p);
        }
        if !warnings[i].suppressed_by_default {
            n = n + 1;
        }
        i = i + 1;
    }
    assert(warnings@.take(warnings@.len() as int) == warnings@);
    n
}

/// How many different kinds the findings have.
fn count_unique_kinds(findings: &[WebFinding]) -> (n: usize)
    ensures
        n == unique_kind_count(views(findings@)),
{
    let ghost ks = kinds(views(findings@));
    let mut seen: Vec<Vec<char>> = Vec::new();
    let mut i: usize = 0;
    while i < findings.len()
        invariant
            i <= findings@.len(),
            ks == kinds(views(findings@)),
            seen@.len() <= i,
            seen@.map_values(|v: Vec<char>| v@).no_duplicates(),
            seen@.map_values(|v: Vec<char>| v@).to_set() == ks.take(i as int).to_set(),
        decreases findings@.len() - i,
    {
        let k = chars_of(findings[i].kind.as_str());
        let ghost sv = seen@.map_values(|v: Vec<char>| v@);
        let mut found = false;
        let mut j: usize = 0;
        while j < seen.len()
            invariant
                j <= seen@.len(),
                sv == seen@.map_values(|v: Vec<char>| v@),
                found <==> exists|m: int| 0 <= m < j && sv[m] == k@,
            decreases seen@.len() - j,
        {
            assert(sv[j as int] == seen@[j as int]@);
            if chars_equal(seen[j].as_slice(), k.as_slice()) {
                found = true;
            }
            j = j + 1;
        }
        proof {
            assert(ks[i as int] == k@);
            assert(ks.take(i + 1) == ks.take(i as int).push(k@));
            let a = ks.take(i as int);
            assert forall|x: Seq<char>| #[trigger] a.push(k@).contains(x) <==> (a.contains(x)
                || x == k@) by {
                if a.push(k@).contains(x) && x != k@ {
                    let m = choose|m: int| 0 <= m < a.len() + 1 && a.push(k@)[m] == x;
                    assert(a[m] == x);
                }
                if a.contains(x) {
                    let m = choose|m: int| 0 <= m < a.len() && a[m] == x;
                    assert(a.push(k@)[m] == x);
                }
                if x == k@ {
                    assert(a.push(k@)[a.len() as int] == x);
                }
            }
            assert(ks.take(i + 1).to_set() =~= ks.take(i as int).to_set().insert(k@));
        }
        if !found {
            seen.push(k);
            proof {
                let nv = seen@.map_values(|v: Vec<char>| v@);
                assert(nv == sv.push(k@));
                assert(!sv.contains(k@));
                assert forall|x: Seq<char>| #[trigger] nv.contains(x) <==> (sv.contains(x) || x
                    == k@) by {
                    if nv.contains(x) && x != k@ {
                        let m = choose|m: int| 0 <= m < nv.len() && nv[m] == x;
                        assert(sv[m] == x);
                    }
                    if sv.contains(x) {
                        let m = choose|m: int| 0 <= m < sv.len() && sv[m] == x;
                        assert(nv[m] == x);
                    }
                    if x == k@ {
                        assert(nv[sv.len() as int] == x);
                    }
                }
                assert(nv.to_set() =~= sv.to_set().insert(k@));
            }
        } else {
            proof {
                assert(sv.contains(k@));
                assert(sv.to_set().insert(k@) == sv.to_set());
            }
        }
        i = i + 1;
    }
    proof {
        assert(ks.take(findings@.len() as int) == ks);
        let sv = seen@.map_values(|v: Vec<char>| v@);
        sv.unique_seq_to_set();
    }
    seen.len()
}

/// The six summary cards: the mode, how many findings are displayed, how
/// many kinds they have, how many have a high severity and a high
/// confidence, and how many warnings are shown by default.
pub fn build_summary_cards(mode: WebMode, findings: &[WebFinding], warnings: &[WebWarning]) -> (res:
    Vec<SummaryCard>)
    ensures
        res@.len() == 6,
        forall|i: int|
            0 <= i < 6 ==> ((#[trigger] res@[i]).label@, res@[i].value@) == summary_texts(
                mode,
                views(findings@),
                warnings@,
            )[i],
{
    let unique_kinds = count_unique_kinds(findings);
    let high_severity = count_high(findings, false);
    let high_confidence = count_high(findings, true);
    let warning_count = count_shown(warnings);
    let mut cards: Vec<SummaryCard> = Vec::new();
    cards.push(
        SummaryCard { label: String::from_str("Mode"), value: String::from_str(mode.as_str()) },
    );
    cards.push(
        SummaryCard {
            label: String::from_str("Displayed Findings"),
            value: decimal_string(findings.len()),
        },
    );
    cards.push(
        SummaryCard {
            label: String::from_str("Unique Kinds"),
            value: decimal_string(unique_kinds),
        },
    );
    cards.push(
        SummaryCard {
            label: String::from_str("High Severity"),
            value: decimal_string(high_severity),
        },
    );
    cards.push(
        SummaryCard {
            label: String::from_str("High Confidence"),
            value: decimal_string(high_confidence),
        },
    );
    cards.push(
        SummaryCard { label: String::from_str("Warnings"), value: decimal_string(warning_count) },
    );
    assert(views(findings@).len() == findings@.len());
    cards
}

/// The counted cards never exceed the number of displayed findings: there
/// are no more kinds, and no more high-severity or high-confidence
/// findings, than findings.
pub proof fn lemma_summary_counts_bounded(findings: Seq<FindingView>)
    ensures
        unique_kind_count(findings) <= findings.len(),
        high_severity_count(findings) <= findings.len(),
        high_confidence_count(findings) <= findings.len(),
{
    kinds(findings).lemma_cardinality_of_set();
    lemma_count_where_bound(findings, |f: FindingView| bucket_of(f.severity) == Bucket::High);
    lemma_count_where_bound(findings, |f: FindingView| bucket_of(f.confidence) == Bucket::High);
}

/// The High Severity card counts exactly the findings whose severity falls
/// in the high bucket, and the High Confidence card those whose confidence
/// does: with no findings both show 0; one more finding whose severity is
/// not high (medium, low or unknown) leaves the High Severity card as it
/// was, and one whose severity is high raises its count by one; likewise
/// for confidence and the High Confidence card.
pub proof fn lemma_high_cards_count_high_findings(
    mode: WebMode,
    findings: Seq<FindingView>,
    warnings: Seq<WebWarning>,
    f: FindingView,
)
    ensures
        summary_texts(mode, Seq::empty(), warnings)[3] == ("High Severity"@, decimal(0)),
        summary_texts(mode, Seq::empty(), warnings)[4] == ("High Confidence"@, decimal(0)),
        summary_texts(mode, findings, warnings)[3] == ("High Severity"@, decimal(
            high_severity_count(findings),
        )),
        summary_texts(mode, findings, warnings)[4] == ("High Confidence"@, decimal(
            high_confidence_count(findings),
        )),
        bucket_of(f.severity) != Bucket::High ==> summary_texts(mode, findings.push(f), warnings)[3]
            == summary_texts(mode, findings, warnings)[3],
        bucket_of(f.severity) == Bucket::High ==> high_severity_count(findings.push(f))
            == high_severity_count(findings) + 1,
        bucket_of(f.confidence) != Bucket::High ==> summary_texts(mode, findings.push(f), warnings)[4]
            == summary_texts(mode, findings, warnings)[4],
        bucket_of(f.confidence) == Bucket::High ==> high_confidence_count(findings.push(f))
            == high_confidence_count(findings) + 1,
{
    let g = findings.push(f);
    assert(g.drop_last() == findings);
    assert(g.last() == f);
}

/// The Warnings card counts exactly the warnings shown by default: with
/// none it shows 0, one more warning hidden by default leaves it as it was,
/// and one more shown warning raises its count by one.
pub proof fn lemma_warnings_card_counts_shown(
    mode: WebMode,
    findings: Seq<FindingView>,
    warnings: Seq<WebWarning>,
    w: WebWarning,
)
    ensures
        summary_texts(mode, findings, Seq::empty())[5] == ("Warnings"@, decimal(0)),
        w.suppressed_by_default ==> summary_texts(mode, findings, warnings.push(w))[5]
            == summary_texts(mode, findings, warnings)[5],
        !w.suppressed_by_default ==> shown_warning_count(warnings.push(w))
            == shown_warning_count(warnings) + 1,
        summary_texts(mode, findings, warnings)[5] == ("Warnings"@, decimal(
            shown_warning_count(warnings),
        )),
{
    let g = warnings.push(w);
    assert(g.drop_last() == warnings);
    assert(g.last() == w);
}

} // verus!
