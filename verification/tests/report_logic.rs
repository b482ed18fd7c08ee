use chainvet_web::analysis::{
    aggregate_directory_analysis, analyzer_report, analyzer_result, checked_finding_totals,
    command_outcome, dedup_artifacts, invalid_json_error, next_directory_step,
    order_artifacts_by_name, parse_request_mode, DirectoryStep, TargetResult, WebArtifact,
};
use chainvet_web::error::{ApiError, ApiStatus};
use chainvet_web::findings::{
    extract_static_findings, extract_surfaced_findings, extract_web_findings,
    report_finding_totals, WebFinding,
};
use chainvet_web::json::{
    json_get, json_string, json_string_opt, json_u32_opt, json_usize, JsonMember, JsonNumber,
    JsonValue,
};
use chainvet_web::mode::WebMode;
use chainvet_web::progress::RunningAnalysis;
use chainvet_web::severity::{severity_bucket, severity_rank};
use chainvet_web::summary::build_summary_cards;
use chainvet_web::warnings::{
    classify_warning, classify_warnings, extract_warning_blocks,
    is_known_benchmark_compatibility_warning, starts_new_warning_block,
};

fn text(s: &str) -> JsonValue {
    JsonValue::String(s.to_string())
}

fn num(n: u64) -> JsonValue {
    JsonValue::Number(JsonNumber { repr: n.to_string(), unsigned: Some(n) })
}

fn obj(members: Vec<(&str, JsonValue)>) -> JsonValue {
    JsonValue::Object(
        members
            .into_iter()
            .map(|(k, v)| JsonMember { key: k.to_string(), value: v })
            .collect(),
    )
}

fn static_finding(kind: &str, severity: &str, file: &str, start: u64, message: &str) -> JsonValue {
    obj(vec![
        ("kind", text(kind)),
        ("severity", text(severity)),
        ("confidence", text("High")),
        ("file", text(file)),
        ("function", text("f")),
        ("span", obj(vec![("start", num(start)), ("end", num(start + 5))])),
        ("message", text(message)),
    ])
}

fn finding_keys(findings: &[WebFinding]) -> Vec<(String, Option<String>)> {
    findings.iter().map(|f| (f.kind.clone(), f.severity.clone())).collect()
}

#[test]
fn mode_names_and_flags() {
    assert_eq!(WebMode::parse("static"), Some(WebMode::Static));
    assert_eq!(WebMode::parse("fuzzing"), Some(WebMode::Fuzzing));
    assert_eq!(WebMode::parse("Static"), None);
    assert_eq!(WebMode::parse(" static"), None);
    assert_eq!(WebMode::Static.as_str(), "static");
    assert_eq!(WebMode::Fuzzing.as_str(), "fuzzing");
    assert_eq!(WebMode::Static.flag(), "--static");
    assert_eq!(WebMode::Fuzzing.flag(), "--fuzzing");
    for m in [WebMode::Static, WebMode::Fuzzing] {
        assert_eq!(WebMode::parse(m.as_str()), Some(m));
    }
}

#[test]
fn request_mode_is_trimmed() {
    assert!(matches!(parse_request_mode("  fuzzing \n"), Ok(WebMode::Fuzzing)));
    let e = parse_request_mode("dynamic").err().unwrap();
    assert_eq!(e.status, ApiStatus::BadRequest);
    assert_eq!(e.message, "unknown analysis mode");
}

#[test]
fn severity_buckets_and_ranks() {
    assert_eq!(severity_bucket(Some("Critical")), "high");
    assert_eq!(severity_bucket(Some("HIGH")), "high");
    assert_eq!(severity_bucket(Some("  Moderate ")), "medium");
    assert_eq!(severity_bucket(Some("medium")), "medium");
    assert_eq!(severity_bucket(Some("Low")), "low");
    assert_eq!(severity_bucket(Some("informational")), "unknown");
    assert_eq!(severity_bucket(None), "unknown");
    assert_eq!(severity_rank(Some("critical")), 0);
    assert_eq!(severity_rank(Some("Medium")), 1);
    assert_eq!(severity_rank(Some("low")), 2);
    assert_eq!(severity_rank(None), 3);
    assert_eq!(severity_rank(Some("note")), 3);
}

#[test]
fn warning_block_starts() {
    assert!(starts_new_warning_block("solc frontend failed: x"));
    assert!(starts_new_warning_block("   solc frontend failed: x"));
    assert!(starts_new_warning_block("[a.sol] solc frontend failed: x"));
    assert!(starts_new_warning_block("analysis command failed: boom"));
    assert!(starts_new_warning_block("analysis cancelled: static analysis on ."));
    assert!(!starts_new_warning_block("a.sol] solc frontend failed: x"));
    assert!(!starts_new_warning_block("note: solc frontend failed:"));
    assert!(!starts_new_warning_block(""));
}

#[test]
fn warning_blocks_split_and_trimmed() {
    let stderr = "solc frontend failed: first\n  detail line   \n\n   \nanalysis command failed: second\r\n[b.sol] solc frontend failed: third\ntrailing\n";
    let blocks = extract_warning_blocks(stderr);
    assert_eq!(
        blocks,
        vec![
            "solc frontend failed: first\n  detail line".to_string(),
            "analysis command failed: second".to_string(),
            "[b.sol] solc frontend failed: third\ntrailing".to_string(),
        ]
    );
    assert_eq!(extract_warning_blocks(""), Vec::<String>::new());
    assert_eq!(extract_warning_blocks(" \n\t\n"), Vec::<String>::new());
    assert_eq!(
        extract_warning_blocks("  leading text\nmore"),
        vec!["leading text\nmore".to_string()]
    );
    for b in blocks {
        assert_eq!(b.trim(), b);
        assert!(!b.is_empty());
    }
}

#[test]
fn warnings_classified() {
    let known = "solc frontend failed: Benchmarks/Not-so-smart/not-so-smart-contracts-master/reentrancy/DAO_source_code/DAO.sol: error";
    assert!(is_known_benchmark_compatibility_warning(known));
    assert!(!is_known_benchmark_compatibility_warning(
        "Benchmarks/Not-so-smart/not-so-smart-contracts-master/reentrancy/DAO_source_code/DAO.sol"
    ));
    let w = classify_warning(known.to_string());
    assert_eq!(w.title, "Known Benchmark Compatibility Warning");
    assert_eq!(w.category, "compatibility");
    assert!(w.suppressed_by_default);
    assert_eq!(w.message, known);

    let w = classify_warning("[x.sol] solc frontend failed: parse".to_string());
    assert_eq!(w.title, "Compatibility Warning");
    assert_eq!(w.category, "compatibility");
    assert!(!w.suppressed_by_default);

    let w = classify_warning("analysis command failed: oops".to_string());
    assert_eq!(w.title, "Analyzer Warning");
    assert_eq!(w.category, "general");
    assert!(!w.suppressed_by_default);

    let all = classify_warnings(vec!["a".to_string(), known.to_string()]);
    assert_eq!(all.len(), 2);
    assert_eq!(all[0].message, "a");
    assert!(all[1].suppressed_by_default);
}

#[test]
fn json_lookups() {
    let v = obj(vec![
        ("name", text("x")),
        ("big", num(5_000_000_001)),
        ("small", num(7)),
        ("neg", JsonValue::Number(JsonNumber { repr: "-3".to_string(), unsigned: None })),
        ("name", text("second")),
    ]);
    assert_eq!(json_string(&v, "name"), "x");
    assert_eq!(json_string(&v, "missing"), "");
    assert_eq!(json_string(&v, "small"), "");
    assert_eq!(json_string_opt(&v, "name"), Some("x".to_string()));
    assert_eq!(json_string_opt(&v, "small"), None);
    assert_eq!(json_u32_opt(&v, "small"), Some(7));
    assert_eq!(json_u32_opt(&v, "big"), Some(5_000_000_001u64 as u32));
    assert_eq!(json_u32_opt(&v, "neg"), None);
    assert_eq!(json_usize(&v, "small"), 7);
    assert_eq!(json_usize(&v, "neg"), 0);
    assert_eq!(json_usize(&v, "name"), 0);
    assert!(json_get(&text("x"), "name").is_none());
}

#[test]
fn static_findings_read_in_report_order() {
    let report = obj(vec![(
        "findings",
        JsonValue::Array(vec![
            static_finding("reentrancy", "Low", "b.sol", 10, "m1"),
            obj(vec![("kind", text("bare"))]),
        ]),
    )]);
    let fs = extract_static_findings(&report);
    assert_eq!(fs.len(), 2);
    assert_eq!(fs[0].kind, "reentrancy");
    assert_eq!(fs[0].layer, "static");
    assert_eq!(fs[0].severity, Some("Low".to_string()));
    assert_eq!(fs[0].confidence, Some("High".to_string()));
    assert_eq!(fs[0].function, Some("f".to_string()));
    assert_eq!(fs[0].file, Some("b.sol".to_string()));
    assert_eq!(fs[0].start, Some(10));
    assert_eq!(fs[0].end, Some(15));
    assert_eq!(fs[0].message, "m1");
    assert_eq!(fs[0].evidence, None);
    assert_eq!(fs[1].kind, "bare");
    assert_eq!(fs[1].message, "");
    assert_eq!(fs[1].start, None);
    assert!(extract_static_findings(&obj(vec![])).is_empty());
    assert!(extract_static_findings(&obj(vec![("findings", text("no"))])).is_empty());
}

#[test]
fn surfaced_findings_runtime_then_meta() {
    let report = obj(vec![
        (
            "meta_findings",
            JsonValue::Array(vec![obj(vec![
                ("kind", text("meta-kind")),
                ("evidence_kind", text("trace")),
            ])]),
        ),
        (
            "findings",
            JsonValue::Array(vec![obj(vec![
                ("kind", text("rt")),
                ("function_name", text("g")),
                ("start", num(3)),
                ("analysis_layer", text("custom")),
            ])]),
        ),
    ]);
    let fs = extract_surfaced_findings(&report, "findings", "meta_findings");
    assert_eq!(fs.len(), 2);
    assert_eq!(fs[0].kind, "rt");
    assert_eq!(fs[0].layer, "custom");
    assert_eq!(fs[0].function, Some("g".to_string()));
    assert_eq!(fs[0].start, Some(3));
    assert_eq!(fs[1].kind, "meta-kind");
    assert_eq!(fs[1].layer, "meta");
    assert_eq!(fs[1].evidence, Some("trace".to_string()));
    let plain = obj(vec![("findings", JsonValue::Array(vec![obj(vec![])]))]);
    let fs = extract_surfaced_findings(&plain, "findings", "meta_findings");
    assert_eq!(fs[0].layer, "runtime");
}

#[test]
fn web_findings_sorted_stably() {
    let report = obj(vec![(
        "findings",
        JsonValue::Array(vec![
            static_finding("b-kind", "low", "a.sol", 1, "same"),
            static_finding("a-kind", "low", "a.sol", 1, "same"),
            static_finding("z-kind", "critical", "a.sol", 1, "x"),
            static_finding("a-kind", "low", "a.sol", 1, "same"),
            static_finding("a-kind", "medium", "z.sol", 9, "y"),
        ]),
    )]);
    let fs = extract_web_findings(WebMode::Static, &report).ok().unwrap();
    let keys = finding_keys(&fs);
    assert_eq!(
        keys,
        vec![
            ("z-kind".to_string(), Some("critical".to_string())),
            ("a-kind".to_string(), Some("medium".to_string())),
            ("a-kind".to_string(), Some("low".to_string())),
            ("a-kind".to_string(), Some("low".to_string())),
            ("b-kind".to_string(), Some("low".to_string())),
        ]
    );
}

#[test]
fn web_findings_order_by_start_then_message() {
    let report = obj(vec![(
        "findings",
        JsonValue::Array(vec![
            static_finding("k", "high", "a.sol", 20, "b"),
            static_finding("k", "high", "a.sol", 3, "z"),
            static_finding("k", "high", "a.sol", 20, "a"),
        ]),
    )]);
    let fs = extract_web_findings(WebMode::Static, &report).ok().unwrap();
    let got: Vec<(Option<u32>, String)> = fs.iter().map(|f| (f.start, f.message.clone())).collect();
    assert_eq!(
        got,
        vec![(Some(3), "z".to_string()), (Some(20), "a".to_string()), (Some(20), "b".to_string())]
    );
}

#[test]
fn finding_totals_by_mode() {
    let report = obj(vec![
        ("finding_count_raw", num(4)),
        ("suppressed_findings", num(1)),
        ("meta_finding_count_raw", num(2)),
        ("suppressed_meta_findings", num(3)),
    ]);
    assert_eq!(report_finding_totals(WebMode::Static, &report), (4, 1));
    assert_eq!(report_finding_totals(WebMode::Fuzzing, &report), (6, 4));
    assert_eq!(report_finding_totals(WebMode::Fuzzing, &obj(vec![])), (0, 0));
}

#[test]
fn summary_cards_count() {
    let report = obj(vec![(
        "findings",
        JsonValue::Array(vec![
            static_finding("a", "High", "x.sol", 1, "m"),
            static_finding("a", "low", "x.sol", 2, "m"),
            static_finding("b", "critical", "x.sol", 3, "m"),
        ]),
    )]);
    let fs = extract_web_findings(WebMode::Static, &report).ok().unwrap();
    let ws = classify_warnings(vec![
        "solc frontend failed: Benchmarks/Not-so-smart/not-so-smart-contracts-master/denial_of_service/list_dos.sol".to_string(),
        "other".to_string(),
    ]);
    let cards = build_summary_cards(WebMode::Static, &fs, &ws);
    let got: Vec<(String, String)> = cards.into_iter().map(|c| (c.label, c.value)).collect();
    assert_eq!(
        got,
        vec![
            ("Mode".to_string(), "static".to_string()),
            ("Displayed Findings".to_string(), "3".to_string()),
            ("Unique Kinds".to_string(), "2".to_string()),
            ("High Severity".to_string(), "2".to_string()),
            ("High Confidence".to_string(), "3".to_string()),
            ("Warnings".to_string(), "1".to_string()),
        ]
    );
    let empty = build_summary_cards(WebMode::Fuzzing, &[], &[]);
    assert_eq!(empty[0].value, "fuzzing");
    assert_eq!(empty[1].value, "0");
    assert_eq!(empty[2].value, "0");
}

#[test]
fn summary_counts_many_findings_in_decimal() {
    let items: Vec<JsonValue> =
        (0..123).map(|i| static_finding(&format!("k{}", i % 11), "info", "a.sol", i, "m")).collect();
    let report = obj(vec![("findings", JsonValue::Array(items))]);
    let fs = extract_web_findings(WebMode::Static, &report).ok().unwrap();
    let cards = build_summary_cards(WebMode::Static, &fs, &[]);
    assert_eq!(cards[1].value, "123");
    assert_eq!(cards[2].value, "11");
    assert_eq!(cards[3].value, "0");
}

fn job(cancelled: bool) -> RunningAnalysis {
    let mut j = RunningAnalysis::new(1, "static".to_string(), "dir".to_string(), 2);
    if cancelled {
        j.cancel();
    }
    j
}

#[test]
fn command_outcomes() {
    let ok = command_outcome(&job(false), true, "  {\"a\":1}\n", "\n warn \n").ok().unwrap();
    assert_eq!(ok, ("{\"a\":1}".to_string(), "warn".to_string()));

    let e = command_outcome(&job(false), false, " out ", "  ").err().unwrap();
    assert_eq!(e.status, ApiStatus::InternalServerError);
    assert_eq!(e.message, "analysis command failed: out");
    let e = command_outcome(&job(false), false, " out ", " err ").err().unwrap();
    assert_eq!(e.message, "analysis command failed: err");

    let e = command_outcome(&job(true), true, "{}", "").err().unwrap();
    assert_eq!(e.status, ApiStatus::Conflict);
    assert_eq!(e.message, "analysis cancelled: static analysis on dir");

    let e = invalid_json_error("expected value at line 1");
    assert_eq!(e.status, ApiStatus::InternalServerError);
    assert_eq!(e.message, "analyzer produced invalid JSON: expected value at line 1");
}

#[test]
fn api_error_constructors() {
    let e = ApiError::bad_request("bad");
    assert_eq!((e.status, e.message.as_str()), (ApiStatus::BadRequest, "bad"));
    let e = ApiError::conflict("busy".to_string());
    assert_eq!((e.status, e.message.as_str()), (ApiStatus::Conflict, "busy"));
    let e = ApiError::cancelled("stop".to_string());
    assert_eq!((e.status, e.message.as_str()), (ApiStatus::Conflict, "stop"));
    let e = ApiError::internal("x".to_string());
    assert_eq!((e.status, e.message.as_str()), (ApiStatus::InternalServerError, "x"));
    let e = ApiError::internal_from_io("No such file or directory (os error 2)");
    assert_eq!(e.message, "io error: No such file or directory (os error 2)");
}

fn artifact(name: &str, path: &str) -> WebArtifact {
    WebArtifact { name: name.to_string(), relative_path: path.to_string() }
}

#[test]
fn artifacts_ordered_and_deduplicated() {
    let by_name = order_artifacts_by_name(vec![artifact("b", "r/b"), artifact("a", "r/a")]);
    let names: Vec<&str> = by_name.iter().map(|a| a.name.as_str()).collect();
    assert_eq!(names, vec!["a", "b"]);
    let d = dedup_artifacts(vec![
        artifact("x", "p"),
        artifact("y", "p"),
        artifact("z", "q"),
        artifact("w", "p"),
    ]);
    let got: Vec<(&str, &str)> =
        d.iter().map(|a| (a.name.as_str(), a.relative_path.as_str())).collect();
    assert_eq!(got, vec![("x", "p"), ("z", "q"), ("w", "p")]);
}

#[test]
fn directory_aggregate() {
    let r1 = obj(vec![
        ("findings", JsonValue::Array(vec![static_finding("k1", "low", "a.sol", 1, "m")])),
        ("finding_count_raw", num(3)),
        ("suppressed_findings", num(2)),
    ]);
    let r2 = obj(vec![
        ("findings", JsonValue::Array(vec![static_finding("k2", "high", "b.sol", 1, "m")])),
        ("finding_count_raw", num(5)),
    ]);
    let results = vec![
        TargetResult {
            relative_target: "src/a.sol".to_string(),
            report: r1,
            warnings: vec!["solc frontend failed: x".to_string()],
            run_dir: None,
            artifacts: vec![artifact("n2", "z"), artifact("n1", "z")],
        },
        TargetResult {
            relative_target: "src/b.sol".to_string(),
            report: r2,
            warnings: vec!["w2".to_string(), "w3".to_string()],
            run_dir: Some("runs/1".to_string()),
            artifacts: vec![artifact("n0", "a")],
        },
    ];
    let agg = aggregate_directory_analysis(WebMode::Static, "src", results).ok().unwrap();
    let kinds: Vec<&str> = agg.findings.iter().map(|f| f.kind.as_str()).collect();
    assert_eq!(kinds, vec!["k2", "k1"]);
    let ws: Vec<&str> = agg.warnings.iter().map(|w| w.message.as_str()).collect();
    assert_eq!(ws, vec!["[src/a.sol] solc frontend failed: x", "[src/b.sol] w2", "[src/b.sol] w3"]);
    assert_eq!(agg.warnings[0].category, "compatibility");
    let arts: Vec<(&str, &str)> =
        agg.artifacts.iter().map(|a| (a.relative_path.as_str(), a.name.as_str())).collect();
    assert_eq!(arts, vec![("a", "n0")]);
    assert_eq!(agg.summary_cards[1].value, "2");
    assert_eq!(agg.summary_cards[5].value, "3");
    match &agg.raw_report {
        JsonValue::Object(ms) => {
            let keys: Vec<&str> = ms.iter().map(|m| m.key.as_str()).collect();
            assert_eq!(
                keys,
                vec![
                    "mode",
                    "target_path",
                    "target_count",
                    "targets",
                    "run_dirs",
                    "finding_count_raw",
                    "suppressed_findings",
                    "reports"
                ]
            );
        }
        _ => panic!("aggregate report is not an object"),
    }
    assert_eq!(json_string(&agg.raw_report, "mode"), "static");
    assert_eq!(json_string(&agg.raw_report, "target_path"), "src");
    assert_eq!(json_usize(&agg.raw_report, "target_count"), 2);
    assert_eq!(json_usize(&agg.raw_report, "finding_count_raw"), 8);
    assert_eq!(json_usize(&agg.raw_report, "suppressed_findings"), 2);
    match json_get(&agg.raw_report, "run_dirs") {
        Some(JsonValue::Array(a)) => {
            assert_eq!(a.len(), 1);
            assert!(matches!(&a[0], JsonValue::String(s) if s == "runs/1"));
        }
        _ => panic!("run_dirs is not an array"),
    }
    match json_get(&agg.raw_report, "reports") {
        Some(JsonValue::Array(a)) => {
            assert_eq!(a.len(), 2);
            assert_eq!(json_string(&a[1], "target_path"), "src/b.sol");
            let inner = json_get(&a[1], "report").unwrap();
            assert_eq!(json_usize(inner, "finding_count_raw"), 5);
        }
        _ => panic!("reports is not an array"),
    }
    match json_get(&agg.raw_report, "finding_count_raw") {
        Some(JsonValue::Number(n)) => assert_eq!(n.repr, "8"),
        _ => panic!("count is not a number"),
    }
}

#[test]
fn analyzer_output_parsed() {
    let stdout = "  {\"findings\": [{\"kind\": \"k\", \"span\": {\"start\": 4}}], \"n\": 2.5, \"m\": -3}\n";
    let stderr = "\nsolc frontend failed: x\n  more\nanalysis command failed: y\n";
    let run = analyzer_result(&job(false), true, stdout, stderr).ok().unwrap();
    assert_eq!(run.raw_json, stdout.trim());
    assert_eq!(
        run.warnings,
        vec!["solc frontend failed: x\n  more".to_string(), "analysis command failed: y".to_string()]
    );
    let fs = extract_static_findings(&run.report);
    assert_eq!(fs.len(), 1);
    assert_eq!(fs[0].kind, "k");
    assert_eq!(fs[0].start, Some(4));
    match json_get(&run.report, "n") {
        Some(JsonValue::Number(n)) => {
            assert_eq!(n.repr, "2.5");
            assert_eq!(n.unsigned, None);
        }
        _ => panic!("n is not a number"),
    }
    match json_get(&run.report, "m") {
        Some(JsonValue::Number(n)) => assert_eq!((n.repr.as_str(), n.unsigned), ("-3", None)),
        _ => panic!("m is not a number"),
    }

    let e = analyzer_result(&job(false), true, "not json", "").err().unwrap();
    assert_eq!(e.status, ApiStatus::InternalServerError);
    assert!(e.message.starts_with("analyzer produced invalid JSON: "));
    assert!(e.message.len() > "analyzer produced invalid JSON: ".len());

    let e = analyzer_result(&job(true), true, "{}", "").err().unwrap();
    assert_eq!(e.status, ApiStatus::Conflict);
    let e = analyzer_result(&job(false), false, "{}", " bad ").err().unwrap();
    assert_eq!(e.message, "analysis command failed: bad");

    let e = analyzer_report("x".to_string(), "", Err("eof".to_string())).err().unwrap();
    assert_eq!(e.message, "analyzer produced invalid JSON: eof");
    let run = analyzer_report("{}".to_string(), "w", Ok(JsonValue::Null)).ok().unwrap();
    assert_eq!(run.warnings, vec!["w".to_string()]);
}

#[test]
fn directory_run_steps() {
    let j = job(false);
    assert_eq!(next_directory_step(&j, 0, 2).ok(), Some(DirectoryStep::Analyze(0)));
    assert_eq!(next_directory_step(&j, 1, 2).ok(), Some(DirectoryStep::Analyze(1)));
    assert_eq!(next_directory_step(&j, 2, 2).ok(), Some(DirectoryStep::Finish));
    let c = job(true);
    let e = next_directory_step(&c, 0, 2).err().unwrap();
    assert_eq!(e.status, ApiStatus::Conflict);
    assert_eq!(e.message, "analysis cancelled: static analysis on dir");
    assert!(next_directory_step(&c, 1, 2).is_err());
    assert_eq!(next_directory_step(&c, 2, 2).ok(), Some(DirectoryStep::Finish));
}

fn result_with(report: JsonValue) -> TargetResult {
    TargetResult {
        relative_target: "a.sol".to_string(),
        report,
        warnings: vec![],
        run_dir: None,
        artifacts: vec![],
    }
}

#[test]
fn declared_totals_checked() {
    let rs = vec![
        result_with(obj(vec![("finding_count_raw", num(3)), ("suppressed_findings", num(1))])),
        result_with(obj(vec![
            ("finding_count_raw", num(4)),
            ("meta_finding_count_raw", num(5)),
            ("suppressed_meta_findings", num(2)),
        ])),
    ];
    assert_eq!(checked_finding_totals(WebMode::Static, &rs), Some((7, 1)));
    assert_eq!(checked_finding_totals(WebMode::Fuzzing, &rs), Some((12, 3)));
    let big = vec![
        result_with(obj(vec![("finding_count_raw", num(u64::MAX))])),
        result_with(obj(vec![("finding_count_raw", num(1))])),
    ];
    assert_eq!(checked_finding_totals(WebMode::Static, &big), None);
    let one = vec![result_with(obj(vec![
        ("finding_count_raw", num(u64::MAX)),
        ("meta_finding_count_raw", num(1)),
    ]))];
    assert_eq!(checked_finding_totals(WebMode::Static, &one), Some((u64::MAX as usize, 0)));
    assert_eq!(checked_finding_totals(WebMode::Fuzzing, &one), None);
}

#[test]
fn artifacts_only_from_run_directories() {
    let results = vec![TargetResult {
        relative_target: "a.sol".to_string(),
        report: obj(vec![]),
        warnings: vec![],
        run_dir: None,
        artifacts: vec![artifact("x", "p")],
    }];
    let agg = aggregate_directory_analysis(WebMode::Static, ".", results).ok().unwrap();
    assert!(agg.artifacts.is_empty());
}
