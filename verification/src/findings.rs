//! Findings: read out of an analyzer report, and ordered for display.
use vstd::prelude::*;

use crate::error::ApiError;
use crate::json::{
    array_items, as_text, as_unsigned, json_as_array, json_get, json_string, json_string_opt, json_u32_opt,
    json_usize, lookup, spec_json_string, spec_json_u32, spec_json_usize, text_views,
    JsonValue,
};
use crate::mode::WebMode;
use crate::order::{
    chars_less, lemma_stable_sorted_ranked, lemma_text_less_irreflexive, lemma_text_less_total,
    lemma_text_less_transitive, stable_sort, stable_sorted, text_less, views, Ranked,
};
use crate::severity::{bucket_of, bucket_rank, severity_rank};
use crate::text::{chars_equal, chars_of};

verus! {

/// A finding as the UI shows it.
pub struct WebFinding {
    pub kind: String,
    pub layer: String,
    pub severity: Option<String>,
    pub confidence: Option<String>,
    pub category: Option<String>,
    pub function: Option<String>,
    pub file: Option<String>,
    pub start: Option<u32>,
    pub end: Option<u32>,
    pub message: String,
    pub evidence: Option<String>,
}

/// The content of a finding.
pub struct FindingView {
    pub kind: Seq<char>,
    pub layer: Seq<char>,
    pub severity: Option<Seq<char>>,
    pub confidence: Option<Seq<char>>,
    pub category: Option<Seq<char>>,
    pub function: Option<Seq<char>>,
    pub file: Option<Seq<char>>,
    pub start: Option<u32>,
    pub end: Option<u32>,
    pub message: Seq<char>,
    pub evidence: Option<Seq<char>>,
}

impl View for WebFinding {
    type V = FindingView;

    open spec fn view(&self) -> FindingView {
        FindingView {
            kind: self.kind@,
            layer: self.layer@,
            severity: text_views(self.severity),
            confidence: text_views(self.confidence),
            category: text_views(self.category),
            function: text_views(self.function),
            file: text_views(self.file),
            start: self.start,
            end: self.end,
            message: self.message@,
            evidence: text_views(self.evidence),
        }
    }
}

/// An optional text, or the empty text.
pub open spec fn or_empty(o: Option<Seq<char>>) -> Seq<char> {
    match o {
        Some(s) => s,
        None => Seq::empty(),
    }
}

/// What findings are ordered by: severity rank, kind, file, function, start
/// offset, message.
pub struct FindingKey {
    pub rank: u8,
    pub kind: Seq<char>,
    pub file: Seq<char>,
    pub function: Seq<char>,
    pub start: u32,
    pub message: Seq<char>,
}

/// The ordering key of a finding.
pub open spec fn finding_key(f: FindingView) -> FindingKey {
    FindingKey {
        rank: bucket_rank(bucket_of(f.severity)),
        kind: f.kind,
        file: or_empty(f.file),
        function: or_empty(f.function),
        start: match f.start {
            Some(s) => s,
            None => 0,
        },
        message: f.message,
    }
}

/// The lexicographic order of keys, field by field.
pub open spec fn key_less(a: FindingKey, b: FindingKey) -> bool {
    if a.rank != b.rank {
        a.rank < b.rank
    } else if a.kind != b.kind {
        text_less(a.kind, b.kind)
    } else if a.file != b.file {
        text_less(a.file, b.file)
    } else if a.function != b.function {
        text_less(a.function, b.function)
    } else if a.start != b.start {
        a.start < b.start
    } else {
        text_less(a.message, b.message)
    }
}

proof fn lemma_key_less_irreflexive(a: FindingKey)
    ensures
        !key_less(a, a),
{
    lemma_text_less_irreflexive(a.message);
}

proof fn lemma_key_less_transitive(a: FindingKey, b: FindingKey, c: FindingKey)
    requires
        key_less(a, b),
        key_less(b, c),
    ensures
        key_less(a, c),
{
    lemma_text_less_total(a.kind, c.kind);
    lemma_text_less_total(a.file, c.file);
    lemma_text_less_total(a.function, c.function);
    if a.rank == b.rank && b.rank == c.rank {
        if a.kind != b.kind && b.kind != c.kind {
            lemma_text_less_transitive(a.kind, b.kind, c.kind);
            if a.kind == c.kind {
                lemma_text_less_irreflexive(a.kind);
            }
        } else if a.kind == b.kind && b.kind == c.kind {
            if a.file != b.file && b.file != c.file {
                lemma_text_less_transitive(a.file, b.file, c.file);
                if a.file == c.file {
                    lemma_text_less_irreflexive(a.file);
                }
            } else if a.file == b.file && b.file == c.file {
                if a.function != b.function && b.function != c.function {
                    lemma_text_less_transitive(a.function, b.function, c.function);
                    if a.function == c.function {
                        lemma_text_less_irreflexive(a.function);
                    }
                } else if a.function == b.function && b.function == c.function {
                    if a.start == b.start && b.start == c.start {
                        lemma_text_less_transitive(a.message, b.message, c.message);
                    }
                }
            }
        }
    }
}

proof fn lemma_key_less_total(a: FindingKey, b: FindingKey)
    ensures
        a == b || key_less(a, b) || key_less(b, a),
{
    lemma_text_less_total(a.kind, b.kind);
    lemma_text_less_total(a.file, b.file);
    lemma_text_less_total(a.function, b.function);
    lemma_text_less_total(a.message, b.message);
}

impl Ranked for WebFinding {
    open spec fn precedes(a: FindingView, b: FindingView) -> bool {
        key_less(finding_key(a), finding_key(b))
    }

    proof fn lemma_precedes_irreflexive(a: FindingView) {
        lemma_key_less_irreflexive(finding_key(a));
    }

    proof fn lemma_precedes_transitive(a: FindingView, b: FindingView, c: FindingView) {
        lemma_key_less_transitive(finding_key(a), finding_key(b), finding_key(c));
    }

    proof fn lemma_not_precedes_transitive(a: FindingView, b: FindingView, c: FindingView) {
        let (ka, kb, kc) = (finding_key(a), finding_key(b), finding_key(c));
        lemma_key_less_total(ka, kb);
        lemma_key_less_total(kb, kc);
        if key_less(ka, kc) {
            if ka == kb {
            } else if kb == kc {
            } else {
                lemma_key_less_transitive(kb, ka, kc);
                lemma_key_less_transitive(kc, kb, ka);
                lemma_key_less_transitive(ka, kc, kb);
            }
        }
    }

    fn precedes_exec(&self, other: &Self) -> (r: bool) {
        let ra = severity_rank(opt_str(&self.severity));
        let rb = severity_rank(opt_str(&other.severity));
        if ra != rb {
            return ra < rb;
        }
        let ka = chars_of(self.kind.as_str());
        let kb = chars_of(other.kind.as_str());
        if !chars_equal(ka.as_slice(), kb.as_slice()) {
            return chars_less(ka.as_slice(), kb.as_slice());
        }
        let fa = opt_chars(&self.file);
        let fb = opt_chars(&other.file);
        if !chars_equal(fa.as_slice(), fb.as_slice()) {
            return chars_less(fa.as_slice(), fb.as_slice());
        }
        let ga = opt_chars(&self.function);
        let gb = opt_chars(&other.function);
        if !chars_equal(ga.as_slice(), gb.as_slice()) {
            return chars_less(ga.as_slice(), gb.as_slice());
        }
        let sa: u32 = match self.start {
            Some(s) => s,
            None => 0,
        };
        let sb: u32 = match other.start {
            Some(s) => s,
            None => 0,
        };
        if sa != sb {
            return sa < sb;
        }
        let ma = chars_of(self.message.as_str());
        let mb = chars_of(other.message.as_str());
        chars_less(ma.as_slice(), mb.as_slice())
    }
}

/// A borrowed view of an optional string (`Option::as_deref`).
pub fn opt_str(o: &Option<String>) -> (res: Option<&str>)
    ensures
        crate::severity::str_views(res) == text_views(*o),
{
    match o {
        Some(s) => Some(s.as_str()),
        None => None,
    }
}

/// The characters of an optional string, or none.
fn opt_chars(o: &Option<String>) -> (res: Vec<char>)
    ensures
        res@ == or_empty(text_views(*o)),
{
    match o {
        Some(s) => chars_of(s.as_str()),
        None => Vec::new(),
    }
}

/// The offset under `span.<key>`, cut to 32 bits.
pub open spec fn span_u32(v: JsonValue, key: Seq<char>) -> Option<u32> {
    match lookup(v, "span"@) {
        Some(span) => spec_json_u32(span, key),
        None => None,
    }
}

/// A finding of the static analysis, as read from its JSON object.
pub open spec fn static_finding_view(v: JsonValue) -> FindingView {
    FindingView {
        kind: spec_json_string(v, "kind"@),
        layer: "static"@,
        severity: as_text(lookup(v, "severity"@)),
        confidence: as_text(lookup(v, "confidence"@)),
        category: as_text(lookup(v, "category"@)),
        function: as_text(lookup(v, "function"@)),
        file: as_text(lookup(v, "file"@)),
        start: span_u32(v, "start"@),
        end: span_u32(v, "end"@),
        message: spec_json_string(v, "message"@),
        evidence: None,
    }
}

/// The static findings of a report, in report order: one per element of
/// its `findings` array.
pub open spec fn static_findings(report: JsonValue) -> Seq<FindingView> {
    array_items(lookup(report, "findings"@)).map_values(|f: JsonValue| static_finding_view(f))
}

/// A finding surfaced by fuzzing, as read from its JSON object; its layer is
/// `analysis_layer`, or the given default.
pub open spec fn surfaced_finding_view(v: JsonValue, default_layer: Seq<char>) -> FindingView {
    FindingView {
        kind: spec_json_string(v, "kind"@),
        layer: match as_text(lookup(v, "analysis_layer"@)) {
            Some(l) => l,
            None => default_layer,
        },
        severity: as_text(lookup(v, "severity"@)),
        confidence: as_text(lookup(v, "confidence"@)),
        category: as_text(lookup(v, "category"@)),
        function: as_text(lookup(v, "function_name"@)),
        file: as_text(lookup(v, "file"@)),
        start: spec_json_u32(v, "start"@),
        end: spec_json_u32(v, "end"@),
        message: spec_json_string(v, "message"@),
        evidence: as_text(lookup(v, "evidence_kind"@)),
    }
}

/// The surfaced findings of a report: those of the runtime array, then
/// those of the meta array.
pub open spec fn surfaced_findings(report: JsonValue, runtime_key: Seq<char>, meta_key: Seq<
    char,
>) -> Seq<FindingView> {
    array_items(lookup(report, runtime_key)).map_values(
        |f: JsonValue| surfaced_finding_view(f, "runtime"@),
    ) + array_items(lookup(report, meta_key)).map_values(
        |f: JsonValue| surfaced_finding_view(f, "meta"@),
    )
}

/// Where a surfaced finding sits: its start and end are the integers under
/// the finding's own "start" and "end" keys, each cut to its low 32 bits,
/// and none where the key holds no such integer. A static finding takes
/// both from its "span" object instead.
pub proof fn lemma_finding_offsets(v: JsonValue, default_layer: Seq<char>)
    ensures
        surfaced_finding_view(v, default_layer).start == match as_unsigned(lookup(v, "start"@)) {
            Some(n) => Some(n as u32),
            None => None::<u32>,
        },
        surfaced_finding_view(v, default_layer).end == match as_unsigned(lookup(v, "end"@)) {
            Some(n) => Some(n as u32),
            None => None::<u32>,
        },
        static_finding_view(v).start == match lookup(v, "span"@) {
            Some(span) => match as_unsigned(lookup(span, "start"@)) {
                Some(n) => Some(n as u32),
                None => None::<u32>,
            },
            None => None::<u32>,
        },
        static_finding_view(v).end == match lookup(v, "span"@) {
            Some(span) => match as_unsigned(lookup(span, "end"@)) {
                Some(n) => Some(n as u32),
                None => None::<u32>,
            },
            None => None::<u32>,
        },
{
}

/// The surfaced findings are the runtime array's items, then the meta
/// array's, one finding per item, with the layer the item names or else
/// "runtime" and "meta"; each finding's end is the item's own "end" integer
/// cut to 32 bits.
pub proof fn lemma_surfaced_findings_items(report: JsonValue, runtime_key: Seq<char>, meta_key: Seq<
    char,
>)
    ensures
        ({
            let rt = array_items(lookup(report, runtime_key));
            let mt = array_items(lookup(report, meta_key));
            let fs = surfaced_findings(report, runtime_key, meta_key);
            &&& fs.len() == rt.len() + mt.len()
            &&& forall|i: int|
                0 <= i < rt.len() ==> fs[i] == surfaced_finding_view(#[trigger] rt[i], "runtime"@)
            &&& forall|i: int|
                0 <= i < mt.len() ==> fs[rt.len() + i] == surfaced_finding_view(
                    #[trigger] mt[i],
                    "meta"@,
                )
            &&& forall|i: int|
                0 <= i < rt.len() ==> fs[i].end == match as_unsigned(
                    lookup(#[trigger] rt[i], "end"@),
                ) {
                    Some(n) => Some(n as u32),
                    None => None::<u32>,
                }
        }),
{
    let rt = array_items(lookup(report, runtime_key));
    let mt = array_items(lookup(report, meta_key));
    let fs = surfaced_findings(report, runtime_key, meta_key);
    let a = rt.map_values(|f: JsonValue| surfaced_finding_view(f, "runtime"@));
    let b = mt.map_values(|f: JsonValue| surfaced_finding_view(f, "meta"@));
    assert(fs == a + b);
    assert forall|i: int| 0 <= i < mt.len() implies fs[rt.len() + i] == surfaced_finding_view(
        #[trigger] mt[i],
        "meta"@,
    ) by {
        assert(fs[rt.len() + i] == b[i]);
    }
    assert forall|i: int| 0 <= i < rt.len() implies fs[i] == surfaced_finding_view(
        #[trigger] rt[i],
        "runtime"@,
    ) by {
        assert(fs[i] == a[i]);
    }
}

/// The display order of findings, field by field: a lower severity rank
/// first (high, medium, low, unknown); then the kind's text; then the file's
/// text; then the function's text (a missing file or function counts as the
/// empty text); then the start offset (a missing one as 0); then the
/// message's text.
pub proof fn lemma_finding_order(a: FindingView, b: FindingView)
    ensures
        ({
            let ra = bucket_rank(bucket_of(a.severity));
            let rb = bucket_rank(bucket_of(b.severity));
            let (fa, fb) = (or_empty(a.file), or_empty(b.file));
            let (ga, gb) = (or_empty(a.function), or_empty(b.function));
            let sa: u32 = match a.start {
                Some(x) => x,
                None => 0,
            };
            let sb: u32 = match b.start {
                Some(x) => x,
                None => 0,
            };
            &&& ra < rb ==> <WebFinding as Ranked>::precedes(a, b)
            &&& ra == rb && text_less(a.kind, b.kind) ==> <WebFinding as Ranked>::precedes(a, b)
            &&& ra == rb && a.kind == b.kind && text_less(fa, fb) ==> <WebFinding as Ranked>::precedes(
                a,
                b,
            )
            &&& ra == rb && a.kind == b.kind && fa == fb && text_less(ga, gb)
                ==> <WebFinding as Ranked>::precedes(a, b)
            &&& ra == rb && a.kind == b.kind && fa == fb && ga == gb && sa < sb
                ==> <WebFinding as Ranked>::precedes(a, b)
            &&& ra == rb && a.kind == b.kind && fa == fb && ga == gb && sa == sb && text_less(
                a.message,
                b.message,
            ) ==> <WebFinding as Ranked>::precedes(a, b)
            &&& <WebFinding as Ranked>::precedes(a, b) ==> ra < rb || (ra == rb && text_less(
                a.kind,
                b.kind,
            )) || (ra == rb && a.kind == b.kind && text_less(fa, fb)) || (ra == rb && a.kind
                == b.kind && fa == fb && text_less(ga, gb)) || (ra == rb && a.kind == b.kind && fa
                == fb && ga == gb && sa < sb) || (ra == rb && a.kind == b.kind && fa == fb && ga
                == gb && sa == sb && text_less(a.message, b.message))
        }),
{
    lemma_text_less_irreflexive(a.kind);
    lemma_text_less_irreflexive(or_empty(a.file));
    lemma_text_less_irreflexive(or_empty(a.function));
}

/// The findings of a report in report order, as the mode reads them.
pub open spec fn raw_web_findings(mode: WebMode, report: JsonValue) -> Seq<FindingView> {
    match mode {
        WebMode::Static => static_findings(report),
        WebMode::Fuzzing => surfaced_findings(report, "findings"@, "meta_findings"@),
    }
}

/// The findings of a report as displayed: stably sorted by their key.
pub open spec fn web_findings(mode: WebMode, report: JsonValue) -> Seq<FindingView> {
    stable_sorted::<WebFinding>(raw_web_findings(mode, report))
}

/// The findings shown for a report are the report's findings, each as often
/// as it occurs, in display order: severity rank never falls back, and among
/// findings of one rank and kind the files' texts never fall back, nor
/// among those of one file the functions' texts.
pub proof fn lemma_web_findings_in_display_order(mode: WebMode, report: JsonValue)
    ensures
        ({
            let fs = web_findings(mode, report);
            &&& fs.to_multiset() == raw_web_findings(mode, report).to_multiset()
            &&& forall|i: int, j: int|
                #![trigger fs[i], fs[j]]
                0 <= i < j < fs.len() ==> {
                    let (a, b) = (fs[i], fs[j]);
                    let ra = bucket_rank(bucket_of(a.severity));
                    let rb = bucket_rank(bucket_of(b.severity));
                    &&& ra <= rb
                    &&& ra == rb ==> !text_less(b.kind, a.kind)
                    &&& ra == rb && a.kind == b.kind ==> !text_less(
                        or_empty(b.file),
                        or_empty(a.file),
                    )
                    &&& ra == rb && a.kind == b.kind && or_empty(a.file) == or_empty(b.file)
                        ==> !text_less(or_empty(b.function), or_empty(a.function))
                }
        }),
{
    let fs = web_findings(mode, report);
    lemma_stable_sorted_ranked::<WebFinding>(raw_web_findings(mode, report));
    assert forall|i: int, j: int| #![trigger fs[i], fs[j]] 0 <= i < j < fs.len() implies {
        let (a, b) = (fs[i], fs[j]);
        let ra = bucket_rank(bucket_of(a.severity));
        let rb = bucket_rank(bucket_of(b.severity));
        &&& ra <= rb
        &&& ra == rb ==> !text_less(b.kind, a.kind)
        &&& ra == rb && a.kind == b.kind ==> !text_less(or_empty(b.file), or_empty(a.file))
        &&& ra == rb && a.kind == b.kind && or_empty(a.file) == or_empty(b.file) ==> !text_less(
            or_empty(b.function),
            or_empty(a.function),
        )
    } by {
        assert(!<WebFinding as Ranked>::precedes(fs[j], fs[i]));
        lemma_finding_order(fs[j], fs[i]);
    }
}

/// Reads one static finding.
fn extract_static_finding(finding: &JsonValue) -> (res: WebFinding)
    ensures
        res@ == static_finding_view(*finding),
{
    let span = json_get(finding, "span");
    let start = match span {
        Some(s) => json_u32_opt(s, "start"),
        None => None,
    };
    let end = match span {
        Some(s) => json_u32_opt(s, "end"),
        None => None,
    };
    WebFinding {
        kind: json_string(finding, "kind"),
        layer: String::from_str("static"),
        severity: json_string_opt(finding, "severity"),
        confidence: json_string_opt(finding, "confidence"),
        category: json_string_opt(finding, "category"),
        function: json_string_opt(finding, "function"),
        file: json_string_opt(finding, "file"),
        start,
        end,
        message: json_string(finding, "message"),
        evidence: None,
    }
}

/// Reads the static findings of a report, in report order.
pub fn extract_static_findings(report: &JsonValue) -> (res: Vec<WebFinding>)
    ensures
        views(res@) == static_findings(*report),
{
    let mut res: Vec<WebFinding> = Vec::new();
    match json_as_array(json_get(report, "findings")) {
        Some(items) => {
            let mut i: usize = 0;
            while i < items.len()
                invariant
                    i <= items@.len(),
                    array_items(lookup(*report, "findings"@)) == items@,
                    views(res@) == items@.take(i as int).map_values(
                        |f: JsonValue| static_finding_view(f),
                    ),
                decreases items@.len() - i,
            {
                let f = extract_static_finding(&items[i]);
                let ghost before = res@;
                res.push(f);
                i = i + 1;
                assert(items@.take(i as int) == items@.take(i - 1).push(items@[i - 1]));
                assert(views(res@) =~= views(before).push(f@));
                assert(items@.take(i as int).map_values(|f: JsonValue| static_finding_view(f))
                    =~= items@.take(i - 1).map_values(|f: JsonValue| static_finding_view(f)).push(
                    static_finding_view(items@[i - 1]),
                ));
            }
            assert(items@.take(items@.len() as int) == items@);
        },
        None => {
            assert(views(res@) == static_findings(*report));
        },
    }
    res
}

/// Reads one surfaced finding, with the given default layer.
pub fn extract_surfaced_finding(finding: &JsonValue, default_layer: &str) -> (res: WebFinding)
    ensures
        res@ == surfaced_finding_view(*finding, default_layer@),
{
    let layer = match json_string_opt(finding, "analysis_layer") {
        Some(l) => l,
        None => String::from_str(default_layer),
    };
    WebFinding {
        kind: json_string(finding, "kind"),
        layer,
        severity: json_string_opt(finding, "severity"),
        confidence: json_string_opt(finding, "confidence"),
        category: json_string_opt(finding, "category"),
        function: json_string_opt(finding, "function_name"),
        file: json_string_opt(finding, "file"),
        start: json_u32_opt(finding, "start"),
        end: json_u32_opt(finding, "end"),
        message: json_string(finding, "message"),
        evidence: json_string_opt(finding, "evidence_kind"),
    }
}

/// Appends the surfaced findings of one array, with the given default layer.
fn push_surfaced(res: &mut Vec<WebFinding>, items: &Vec<JsonValue>, default_layer: &str)
    ensures
        views(final(res)@) == views(old(res)@) + items@.map_values(
            |f: JsonValue| surfaced_finding_view(f, default_layer@),
        ),
{
    let ghost start = views(res@);
    let mut i: usize = 0;
    while i < items.len()
        invariant
            i <= items@.len(),
            views(res@) == start + items@.take(i as int).map_values(
                |f: JsonValue| surfaced_finding_view(f, default_layer@),
            ),
        decreases items@.len() - i,
    {
        let f = extract_surfaced_finding(&items[i], default_layer);
        let ghost before = res@;
        res.push(f);
        i = i + 1;
        assert(items@.take(i as int) == items@.take(i - 1).push(items@[i - 1]));
        assert(views(res@) =~= views(before).push(f@));
        assert(items@.take(i as int).map_values(
            |f: JsonValue| surfaced_finding_view(f, default_layer@),
        ) =~= items@.take(i - 1).map_values(
            |f: JsonValue| surfaced_finding_view(f, default_layer@),
        ).push(surfaced_finding_view(items@[i - 1], default_layer@)));
    }
    assert(items@.take(items@.len() as int) == items@);
}

/// Reads the surfaced findings of a report: those under `runtime_key`, then
/// those under `meta_key`.
pub fn extract_surfaced_findings(report: &JsonValue, runtime_key: &str, meta_key: &str) -> (res:
    Vec<WebFinding>)
    ensures
        views(res@) == surfaced_findings(*report, runtime_key@, meta_key@),
{
    let mut res: Vec<WebFinding> = Vec::new();
    if let Some(runtime) = json_as_array(json_get(report, runtime_key)) {
        push_surfaced(&mut res, runtime, "runtime");
    }
    let ghost mid = views(res@);
    if let Some(meta) = json_as_array(json_get(report, meta_key)) {
        push_surfaced(&mut res, meta, "meta");
    }
    proof {
        let r = array_items(lookup(*report, runtime_key@)).map_values(
            |f: JsonValue| surfaced_finding_view(f, "runtime"@),
        );
        let m = array_items(lookup(*report, meta_key@)).map_values(
            |f: JsonValue| surfaced_finding_view(f, "meta"@),
        );
        assert(mid == Seq::<FindingView>::empty() + r);
        assert(views(res@) == mid + m);
        assert(Seq::<FindingView>::empty() + r == r);
    }
    res
}

/// The findings of a report, as the mode reads them, stably sorted by
/// severity rank, kind, file, function, start offset and message.
pub fn extract_web_findings(mode: WebMode, report: &JsonValue) -> (res: Result<
    Vec<WebFinding>,
    ApiError,
>)
    ensures
        res matches Ok(v) && views(v@) == web_findings(mode, *report),
{
    let findings = match mode {
        WebMode::Static => extract_static_findings(report),
        WebMode::Fuzzing => extract_surfaced_findings(report, "findings", "meta_findings"),
    };
    Ok(stable_sort(findings))
}

/// The raw and suppressed finding counts that a report declares.
pub open spec fn finding_totals(mode: WebMode, report: JsonValue) -> (int, int) {
    match mode {
        WebMode::Static => (
            spec_json_usize(report, "finding_count_raw"@) as int,
            spec_json_usize(report, "suppressed_findings"@) as int,
        ),
        WebMode::Fuzzing => (
            spec_json_usize(report, "finding_count_raw"@) + spec_json_usize(
                report,
                "meta_finding_count_raw"@,
            ),
            spec_json_usize(report, "suppressed_findings"@) + spec_json_usize(
                report,
                "suppressed_meta_findings"@,
            ),
        ),
    }
}

/// The raw and suppressed finding counts that a report declares; in fuzzing
/// mode the runtime and meta counts are added.
pub fn report_finding_totals(mode: WebMode, report: &JsonValue) -> (res: (usize, usize))
    requires
        finding_totals(mode, *report).0 <= usize::MAX,
        finding_totals(mode, *report).1 <= usize::MAX,
    ensures
        res.0 == finding_totals(mode, *report).0,
        res.1 == finding_totals(mode, *report).1,
{
    match mode {
        WebMode::Static => (
            json_usize(report, "finding_count_raw"),
            json_usize(report, "suppressed_findings"),
        ),
        WebMode::Fuzzing => (
            json_usize(report, "finding_count_raw") + json_usize(report, "meta_finding_count_raw"),
            json_usize(report, "suppressed_findings") + json_usize(
                report,
                "suppressed_meta_findings",
            ),
        ),
    }
}

} // verus!
