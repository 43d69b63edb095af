use grok_memory::compose::{
    candidate_limit, compose_typed, compose_untyped, decompose_query,
    format_compositional_injection, is_compositional_query, merge_candidates, plan_searches,
    query_embedding, should_embed, Candidate, CompositionalResults, KindBatch, SearchResult,
    PER_KIND_LIMIT,
};
use grok_memory::kind::MemoryKind;

fn two_decimals(score: f64) -> String {
    format!("{score:.2}")
}

fn result(chunk_id: &str, kind: MemoryKind, snippet: &str) -> SearchResult {
    SearchResult {
        chunk_id: chunk_id.into(),
        path: "MEMORY.md".into(),
        start_line: 0,
        end_line: 4,
        score: two_decimals(0.5),
        snippet: snippet.into(),
        source: "workspace".into(),
        created_at: 1,
        kind,
        supersedes: None,
        status: "active".into(),
    }
}

fn ids(results: &[SearchResult]) -> Vec<String> {
    results.iter().map(|r| r.chunk_id.clone()).collect()
}

fn group(results: &CompositionalResults, kind: MemoryKind) -> Vec<String> {
    results.by_kind.get(kind).map(|v| ids(v)).unwrap_or_default()
}

#[test]
fn decompose_decision_only() {
    let k = decompose_query("Why did we decide to use worktrees?");
    assert_eq!(k, vec![MemoryKind::Decision]);
}

#[test]
fn decompose_compositional_why_and_how() {
    let k = decompose_query("Why did we decide to vendor kqueue and how do we rebuild on OpenBSD?");
    assert!(k.contains(&MemoryKind::Decision), "{k:?}");
    assert!(k.contains(&MemoryKind::Procedure), "{k:?}");
    assert!(k.len() >= 2);
}

#[test]
fn decompose_empty_for_generic() {
    let k = decompose_query("fix the flaky pager test");
    assert!(k.is_empty(), "generic coding query should be untyped: {k:?}");
}

#[test]
fn is_compositional_detects_multi() {
    assert!(is_compositional_query(
        "Why did we choose Graphite and how do we restack?"
    ));
    assert!(!is_compositional_query("What is the session id format?"));
}

#[test]
fn format_empty_is_none() {
    assert!(format_compositional_injection(&CompositionalResults::default()).is_none());
}

#[test]
fn format_sections_by_kind() {
    let mut results = CompositionalResults::default();
    results.requested_kinds = vec![MemoryKind::Decision, MemoryKind::Procedure];
    results.flat = vec![
        SearchResult {
            chunk_id: "a:0".into(),
            path: "MEMORY.md".into(),
            start_line: 0,
            end_line: 4,
            score: two_decimals(0.9),
            snippet: "Use worktrees for isolation.".into(),
            source: "workspace".into(),
            created_at: 1,
            kind: MemoryKind::Decision,
            supersedes: None,
            status: "active".into(),
        },
        SearchResult {
            chunk_id: "b:0".into(),
            path: "MEMORY.md".into(),
            start_line: 10,
            end_line: 20,
            score: two_decimals(0.85),
            snippet: "cargo build -p xai-grok-memory".into(),
            source: "workspace".into(),
            created_at: 1,
            kind: MemoryKind::Procedure,
            supersedes: None,
            status: "active".into(),
        },
    ];
    for r in &results.flat {
        results.by_kind.push(r.kind, r.clone());
    }

    let text = format_compositional_injection(&results).unwrap();
    assert!(text.contains("Retrieved decisions"));
    assert!(text.contains("Retrieved procedures"));
    assert!(text.contains("Prefer retrieved knowledge"));
    assert!(text.contains("Compose across sections"));
    // Decisions section should appear before procedures.
    let d = text.find("Retrieved decisions").unwrap();
    let p = text.find("Retrieved procedures").unwrap();
    assert!(d < p);
}

#[test]
fn injection_text() {
    let mut first = result("a:0", MemoryKind::Procedure, "one");
    first.status = "deprecated".into();
    first.start_line = 10;
    first.end_line = 205;
    let second = result("b:0", MemoryKind::Procedure, "two");
    let fact = result("c:0", MemoryKind::Fact, "three");
    let results = compose_untyped(vec![first, second, fact]);
    assert_eq!(results.len(), 3);
    assert!(!results.is_empty());
    assert_eq!(
        format_compositional_injection(&results).unwrap(),
        "## Relevant Memory from Past Sessions\n\n\
         Prefer retrieved knowledge over model priors when they conflict. \
         Compose across sections when the question needs more than one kind of knowledge.\n\n\
         ### Retrieved facts\n\n\
         1. (score: 0.50, source: workspace, kind: fact)\n\
         **File:** MEMORY.md (lines 0-4)\n```\nthree\n```\n\n\
         ### Retrieved procedures\n\n\
         1. (score: 0.50, source: workspace, status: deprecated, kind: procedure)\n\
         **File:** MEMORY.md (lines 10-205)\n```\none\n```\n\n\
         2. (score: 0.50, source: workspace, kind: procedure)\n\
         **File:** MEMORY.md (lines 0-4)\n```\ntwo\n```\n\n"
    );
}

#[test]
fn joined_questions_are_broadened() {
    assert_eq!(
        decompose_query("the ADR and the rest"),
        vec![MemoryKind::Decision, MemoryKind::Procedure]
    );
    assert_eq!(
        decompose_query("the runbook plus the rest"),
        vec![MemoryKind::Decision, MemoryKind::Procedure]
    );
    assert_eq!(
        decompose_query("which VERSION and the rest"),
        vec![MemoryKind::Fact, MemoryKind::Decision]
    );
    assert_eq!(
        decompose_query("cats and dogs"),
        vec![MemoryKind::Decision, MemoryKind::Procedure]
    );
    assert_eq!(decompose_query("my habit and the rest"), vec![MemoryKind::Preference]);
    assert_eq!(
        decompose_query("who owns the ticket and what did we discuss yesterday"),
        vec![MemoryKind::Episode, MemoryKind::Entity]
    );
    assert!(decompose_query("").is_empty());
}

#[test]
fn decomposed_kinds_ascend() {
    let all = decompose_query("what is the decision, how to, prefer, yesterday, who is");
    assert_eq!(all, MemoryKind::all_typed().to_vec());
    let mut sorted = all.clone();
    sorted.sort();
    sorted.dedup();
    assert_eq!(all, sorted);
}

#[test]
fn searches_are_planned_per_kind() {
    let untyped = plan_searches(&vec![], 7);
    assert_eq!(untyped.len(), 1);
    assert_eq!(untyped[0].filter.kinds, None);
    assert_eq!(untyped[0].max_results, 7);
    assert!(untyped[0].filter.exclude_superseded);
    assert!(!untyped[0].lower_floor);

    let typed = plan_searches(&vec![MemoryKind::Fact, MemoryKind::Entity], 7);
    assert_eq!(typed.len(), 2);
    assert_eq!(typed[1].filter.kinds, Some(vec![MemoryKind::Entity]));
    assert_eq!(typed[1].max_results, PER_KIND_LIMIT);
    assert!(typed[1].filter.exclude_superseded);
    assert!(typed[1].lower_floor);
    assert_eq!(candidate_limit(5), 15);
}

#[test]
fn candidates_are_merged_by_chunk() {
    let c = |id: &str, hit: u32| Candidate { chunk_id: id.to_string(), hit };
    let merged = merge_candidates(
        vec![c("a", 1), c("b", 2)],
        vec![c("c", 3), c("a", 4), c("c", 5)],
    );
    let hits: Vec<u32> = merged.iter().map(|m| m.hit).collect();
    assert_eq!(hits, vec![1, 2, 3, 5]);
}

#[test]
fn typed_results_are_deduplicated_and_grouped() {
    let batches = vec![
        KindBatch {
            kind: MemoryKind::Fact,
            results: vec![
                result("a:0", MemoryKind::Fact, "x"),
                result("b:0", MemoryKind::Decision, "y"),
            ],
        },
        KindBatch {
            kind: MemoryKind::Decision,
            results: vec![
                result("b:0", MemoryKind::Decision, "y"),
                result("c:0", MemoryKind::Decision, "z"),
            ],
        },
    ];
    let out = compose_typed(&batches, 10);
    assert_eq!(out.requested_kinds, vec![MemoryKind::Fact, MemoryKind::Decision]);
    assert_eq!(ids(&out.flat), vec!["b:0", "c:0", "a:0"]);
    assert_eq!(group(&out, MemoryKind::Fact), vec!["a:0", "b:0"]);
    assert_eq!(group(&out, MemoryKind::Decision), vec!["c:0"]);

    let capped = compose_typed(&batches, 2);
    assert_eq!(ids(&capped.flat), vec!["b:0", "a:0"]);
    assert_eq!(group(&capped, MemoryKind::Fact), vec!["a:0"]);
    assert_eq!(group(&capped, MemoryKind::Decision), vec!["b:0"]);
}

#[test]
fn the_cap_keeps_kind_diversity() {
    let batches = vec![
        KindBatch {
            kind: MemoryKind::Decision,
            results: vec![
                result("d:0", MemoryKind::Decision, "x"),
                result("d:1", MemoryKind::Decision, "x"),
            ],
        },
        KindBatch {
            kind: MemoryKind::Procedure,
            results: vec![
                result("p:0", MemoryKind::Procedure, "x"),
                result("p:1", MemoryKind::Procedure, "x"),
            ],
        },
    ];
    assert!(compose_typed(&batches, 0).is_empty());
    assert_eq!(ids(&compose_typed(&batches, 1).flat), vec!["d:0"]);
    let out = compose_typed(&batches, 2);
    assert_eq!(ids(&out.flat), vec!["d:0", "p:0"]);
    assert_eq!(group(&out, MemoryKind::Decision), vec!["d:0"]);
    assert_eq!(group(&out, MemoryKind::Procedure), vec!["p:0"]);
    assert_eq!(ids(&compose_typed(&batches, 3).flat), vec!["d:0", "d:1", "p:0"]);
    assert_eq!(compose_typed(&batches, 4), compose_typed(&batches, usize::MAX));
    assert_eq!(compose_typed(&batches, 4).len(), 4);
}

#[test]
fn the_flat_list_is_in_section_order() {
    let all = vec![
        result("u:0", MemoryKind::Unknown, "x"),
        result("e:0", MemoryKind::Episode, "x"),
        result("f:0", MemoryKind::Fact, "x"),
        result("n:0", MemoryKind::Entity, "x"),
        result("d:0", MemoryKind::Decision, "x"),
        result("r:0", MemoryKind::Preference, "x"),
        result("f:1", MemoryKind::Fact, "x"),
        result("p:0", MemoryKind::Procedure, "x"),
    ];
    let ordered = vec!["d:0", "f:0", "f:1", "p:0", "r:0", "n:0", "e:0", "u:0"];
    assert_eq!(ids(&compose_untyped(all).flat), ordered);
    let batches = vec![
        KindBatch {
            kind: MemoryKind::Fact,
            results: vec![result("f:0", MemoryKind::Fact, "x")],
        },
        KindBatch {
            kind: MemoryKind::Decision,
            results: vec![result("d:0", MemoryKind::Decision, "x")],
        },
    ];
    let out = compose_typed(&batches, 10);
    assert_eq!(ids(&out.flat), vec!["d:0", "f:0"]);
    assert_eq!(out.requested_kinds, vec![MemoryKind::Fact, MemoryKind::Decision]);
}

#[test]
fn superseded_results_are_dropped() {
    let mut newer = result("new:0", MemoryKind::Decision, "id: dec-wt\nUse worktrees.");
    newer.supersedes = Some("dec-shared".into());
    let by_snippet = result("old:0", MemoryKind::Decision, "type: decision\nID:   dec-other\n");
    let by_line = result("old:1", MemoryKind::Decision, "  id:    dec-shared  \n");
    let by_field = result("old:2", MemoryKind::Decision, "x ID: dec-shared-2");
    let by_chunk = result("dec-shared:0", MemoryKind::Fact, "x");
    let mut by_path = result("p:0", MemoryKind::Fact, "x");
    by_path.path = "notes/dec-shared.md".into();
    let batches = vec![KindBatch {
        kind: MemoryKind::Decision,
        results: vec![newer, by_snippet, by_line, by_field, by_chunk, by_path],
    }];
    let out = compose_typed(&batches, 10);
    assert_eq!(ids(&out.flat), vec!["new:0", "old:0"]);
    assert_eq!(group(&out, MemoryKind::Decision), vec!["new:0", "old:0"]);
    assert!(out.by_kind.get(MemoryKind::Fact).is_none());
}

#[test]
fn a_result_does_not_supersede_itself() {
    let mut alone = result("dec-a:0", MemoryKind::Decision, "x");
    alone.supersedes = Some("dec-a".into());
    let batches = vec![KindBatch { kind: MemoryKind::Decision, results: vec![alone] }];
    assert_eq!(ids(&compose_typed(&batches, 10).flat), vec!["dec-a:0"]);
}

#[test]
fn embeddings_are_optional() {
    assert!(should_embed(true, true));
    assert!(!should_embed(false, true));
    assert!(!should_embed(true, false));
    let two: Result<Vec<Vec<u8>>, ()> = Ok(vec![vec![1], vec![2]]);
    assert_eq!(query_embedding(two), Some(vec![1]));
    let none: Result<Vec<Vec<u8>>, ()> = Ok(vec![]);
    assert_eq!(query_embedding(none), None);
    let failed: Result<Vec<Vec<u8>>, ()> = Err(());
    assert_eq!(query_embedding(failed), None);
}
