use grok_memory::memory_context::{
    connector_due, conversation_has_memory_context, format_memory_reminder,
    format_memory_reminder_with_core, format_mid_session_connector_reminder, is_greeting,
    is_lowered_greeting, should_mid_session_connector, ConversationItem, MemorySearchResult,
};

fn two_decimals(score: f64) -> String {
    format!("{score:.2}")
}

#[test]
fn test_format_empty() {
    assert_eq!(format_memory_reminder(&[]), None);
}

#[test]
fn test_format_single_result() {
    let results = vec![MemorySearchResult {
        chunk_id: "test:0".to_string(),
        path: "MEMORY.md".to_string(),
        start_line: 0,
        end_line: 5,
        score: two_decimals(0.9),
        snippet: "Use tracing for logging, never println!".to_string(),
        source: "workspace".to_string(),
        created_at: None,
        kind: String::new(),
        supersedes: None,
        status: "active".to_string(),
        staleness: String::new(),
    }];
    let output = format_memory_reminder(&results).unwrap();
    assert!(output.contains("<memory-context>"));
    assert!(output.contains("### Result 1"));
    assert!(output.contains("score: 0.90"));
    assert!(output.contains("**File:** MEMORY.md (lines 0-5)"));
    assert!(output.contains("```\nUse tracing for logging"));
}

#[test]
fn test_format_preserves_newlines() {
    let results = vec![MemorySearchResult {
        chunk_id: "test:0".to_string(),
        path: "MEMORY.md".to_string(),
        start_line: 0,
        end_line: 3,
        score: two_decimals(0.85),
        snippet: "## Conventions\n\n- Use Rust\n- No clones".to_string(),
        source: "workspace".to_string(),
        created_at: None,
        kind: String::new(),
        supersedes: None,
        status: "active".to_string(),
        staleness: String::new(),
    }];
    let output = format_memory_reminder(&results).unwrap();
    assert!(
        output.contains("## Conventions\n\n- Use Rust\n- No clones"),
        "newlines in snippet should be preserved, not collapsed"
    );
}

#[test]
fn test_format_truncates_long_snippets() {
    let results = vec![MemorySearchResult {
        chunk_id: "test:0".to_string(),
        path: "test.md".to_string(),
        start_line: 0,
        end_line: 5,
        score: two_decimals(0.8),
        snippet: "x".repeat(1000),
        source: "session".to_string(),
        created_at: None,
        kind: String::new(),
        supersedes: None,
        status: "active".to_string(),
        staleness: String::new(),
    }];
    let output = format_memory_reminder(&results).unwrap();
    // Snippet should be truncated to SNIPPET_MAX_CHARS (500) + "..."
    assert!(!output.contains(&"x".repeat(501)));
    assert!(output.contains(&format!("{}...", "x".repeat(500))));
}

#[test]
fn test_format_multiple_results() {
    let results = vec![
        MemorySearchResult {
            chunk_id: "a:0".to_string(),
            path: "MEMORY.md".to_string(),
            start_line: 0,
            end_line: 5,
            score: two_decimals(0.9),
            snippet: "First result".to_string(),
            source: "workspace".to_string(),
            created_at: None,
            kind: String::new(),
            supersedes: None,
            status: "active".to_string(),
            staleness: String::new(),
        },
        MemorySearchResult {
            chunk_id: "b:0".to_string(),
            path: "session.md".to_string(),
            start_line: 10,
            end_line: 15,
            score: two_decimals(0.7),
            snippet: "Second result".to_string(),
            source: "session".to_string(),
            created_at: None,
            kind: String::new(),
            supersedes: None,
            status: "active".to_string(),
            staleness: String::new(),
        },
    ];
    let output = format_memory_reminder(&results).unwrap();
    assert!(output.contains("### Result 1"));
    assert!(output.contains("### Result 2"));
    assert!(output.contains("score: 0.90"));
    assert!(output.contains("score: 0.70"));
}

fn sample_result() -> MemorySearchResult {
    MemorySearchResult {
        chunk_id: "test:0".into(),
        path: "MEMORY.md".into(),
        start_line: 0,
        end_line: 5,
        score: two_decimals(0.9),
        snippet: "Project uses Rust for backend services.".into(),
        source: "workspace".into(),
        created_at: None,
        kind: String::new(),
        supersedes: None,
        status: "active".to_string(),
        staleness: String::new(),
    }
}

#[test]
fn test_detects_persisted_block_in_system_message() {
    let block = format_memory_reminder(&[sample_result()]).unwrap();
    let system_content = format!("You are a helpful assistant.\n\n{block}");
    let conversation = vec![
        ConversationItem::system(&system_content),
        ConversationItem::user("help me fix the auth bug"),
    ];
    assert!(
        conversation_has_memory_context(&conversation),
        "an already-injected memory-context block must be detected so it is reused, not re-searched"
    );
}

#[test]
fn test_no_block_when_system_lacks_marker() {
    let conversation = vec![
        ConversationItem::system("You are a helpful assistant."),
        ConversationItem::user("hi"),
    ];
    assert!(!conversation_has_memory_context(&conversation));
}

#[test]
fn test_no_block_when_no_leading_system_message() {
    let conversation = vec![ConversationItem::user("hi")];
    assert!(!conversation_has_memory_context(&conversation));
}

#[test]
fn test_no_block_for_empty_conversation() {
    assert!(!conversation_has_memory_context(&[]));
}

#[test]
fn test_staleness_shown_for_old_session_result() {
    let results = vec![MemorySearchResult {
        chunk_id: "s:0".into(),
        path: "session.md".into(),
        start_line: 0,
        end_line: 5,
        score: two_decimals(0.8),
        snippet: "old info".into(),
        source: "session".into(),
        created_at: Some(1_700_000_000 - 86400 * 10),
        kind: String::new(),
        supersedes: None,
        status: "active".to_string(),
        staleness: "**Stale (10 days old)**\n".into(),
    }];
    let output = format_memory_reminder(&results).unwrap();
    assert!(
        output.contains("**Stale ("),
        "10-day-old session result should show stale warning, got: {output}"
    );
}

#[test]
fn test_no_staleness_for_workspace_result() {
    let results = vec![MemorySearchResult {
        chunk_id: "w:0".into(),
        path: "MEMORY.md".into(),
        start_line: 0,
        end_line: 5,
        score: two_decimals(0.9),
        snippet: "workspace data".into(),
        source: "workspace".into(),
        created_at: Some(1_700_000_000 - 86400 * 30),
        kind: String::new(),
        supersedes: None,
        status: "active".to_string(),
        staleness: String::new(),
    }];
    let output = format_memory_reminder(&results).unwrap();
    assert!(
        !output.contains("**Stale (") && !output.contains("**Note ("),
        "workspace result must not show staleness, got: {output}"
    );
}

#[test]
fn only_a_leading_system_message_counts() {
    let conversation = vec![
        ConversationItem::user("<memory-context>"),
        ConversationItem::system("<memory-context>"),
    ];
    assert!(!conversation_has_memory_context(&conversation));
    assert!(!conversation_has_memory_context(&[ConversationItem::Other]));
}

#[test]
fn test_greeting_detection() {
    assert!(is_greeting("hi"));
    assert!(is_greeting("Hey!"));
    assert!(is_greeting("Hello."));
    assert!(is_greeting("good morning"));
    assert!(is_greeting("continue"));
    assert!(is_greeting("  HELLO  "));
}

#[test]
fn test_non_greeting() {
    assert!(!is_greeting("help me fix the auth bug"));
    assert!(!is_greeting("implement feature X"));
    assert!(!is_greeting("what does this function do"));
    assert!(!is_greeting("hi there, can you help me with something"));
}

#[test]
fn greetings_are_lowered_first() {
    assert!(is_greeting("WHAT'S UP?!."));
    assert!(is_greeting("Continue\u{3000}"));
    // The small letter of a capital I with a dot above keeps the dot.
    assert!(!is_greeting("H\u{130}"));
    assert!(!is_lowered_greeting("WHAT'S UP"));
    assert!(is_lowered_greeting(" what's up,, "));
    assert!(!is_lowered_greeting("sup ."));
    assert!(!is_lowered_greeting(""));
}

#[test]
fn test_format_memory_reminder_empty_results_is_none() {
    let results: Vec<MemorySearchResult> = vec![];
    let reminder = format_memory_reminder(&results);
    assert!(
        reminder.is_none(),
        "empty results must produce None — injection_count must NOT increment"
    );
}

#[test]
fn test_format_memory_reminder_with_results_is_some() {
    let results = vec![MemorySearchResult {
        chunk_id: "test:0".into(),
        path: "/mem/MEMORY.md".into(),
        start_line: 0,
        end_line: 3,
        score: two_decimals(0.85),
        snippet: "Project uses Rust for backend services.".into(),
        source: "workspace".into(),
        created_at: None,
        kind: String::new(),
        supersedes: None,
        status: "active".to_string(),
        staleness: String::new(),
    }];
    let reminder = format_memory_reminder(&results);
    assert!(
        reminder.is_some(),
        "non-empty results must produce Some(_) — injection_count SHOULD increment"
    );
}

#[test]
fn mid_session_skips_until_first_turn_done() {
    assert!(!should_mid_session_connector(
        "Why did we choose worktrees and how do we rebuild?",
        false
    ));
}

#[test]
fn mid_session_fires_on_compositional_after_first_turn() {
    assert!(should_mid_session_connector(
        "Why did we choose worktrees and how do we rebuild on OpenBSD?",
        true
    ));
}

#[test]
fn mid_session_skips_greetings_and_short() {
    assert!(!should_mid_session_connector("hi", true));
    assert!(!should_mid_session_connector("fix flaky test", true));
}

#[test]
fn mid_session_length_counts_bytes() {
    // Nineteen bytes after trimming, then twenty.
    assert!(!connector_due("  the adr and how-tos  ", true, false));
    assert!(connector_due("the adr and how-to \u{e9}", true, false));
    assert!(!connector_due("the adr and how-to \u{e9}", true, true));
    assert!(!connector_due("the adr and how-to \u{e9}", false, false));
}

#[test]
fn mid_session_reminder_wraps_typed_body() {
    let results = vec![MemorySearchResult {
        chunk_id: "a:0".into(),
        path: "MEMORY.md".into(),
        start_line: 0,
        end_line: 2,
        score: two_decimals(0.9),
        snippet: "Use worktrees.".into(),
        source: "workspace".into(),
        created_at: None,
        kind: "decision".into(),
        supersedes: None,
        status: "active".into(),
        staleness: String::new(),
    }];
    let out = format_mid_session_connector_reminder(&results).unwrap();
    assert!(out.contains("Active memory connector"));
    assert!(out.contains("Retrieved decisions") || out.contains("decision"));
    assert!(out.contains("Use worktrees"));
    assert!(!out.contains("<memory-context>"));
}

#[test]
fn mid_session_reminder_empty_is_none() {
    assert!(format_mid_session_connector_reminder(&[]).is_none());
}

#[test]
fn reminder_text() {
    let mut r = sample_result();
    r.snippet = "s".into();
    r.staleness = "**Stale (10 days)**\n".into();
    assert_eq!(
        format_memory_reminder_with_core(&[r.clone()], Some("  core \n")).unwrap(),
        "<memory-context>\ncore\n\n\
         ## Relevant Memory from Past Sessions\n\n\
         ### Result 1 (score: 0.90, source: workspace)\n\
         **File:** MEMORY.md (lines 0-5)\n\
         **Stale (10 days)**\n```\ns\n```\n\n\
         </memory-context>"
    );
    assert_eq!(
        format_memory_reminder_with_core(&[], Some("core")).unwrap(),
        "<memory-context>\ncore\n\n</memory-context>"
    );
    assert_eq!(format_memory_reminder_with_core(&[], Some(" \n")), None);
    assert_eq!(format_memory_reminder_with_core(&[], None), None);
    r.kind = "unknown".into();
    assert!(format_memory_reminder(&[r]).unwrap().contains("### Result 1"));
}

#[test]
fn typed_reminder_text() {
    let with = |kind: &str, snippet: &str| {
        let mut r = sample_result();
        r.kind = kind.into();
        r.snippet = snippet.into();
        r
    };
    let results =
        vec![with("zeta", "1"), with("fact", "2"), with("", "3"), with("alpha", "4"), with("zeta", "5")];
    let entry = |n: u32, kind: &str, snippet: &str| {
        format!(
            "{n}. (score: 0.90, source: workspace, kind: {kind})\n**File:** MEMORY.md (lines 0-5)\n```\n{snippet}\n```\n\n"
        )
    };
    let expected = format!(
        "<memory-context>\n## Relevant Memory from Past Sessions\n\n\
         Prefer retrieved knowledge over model priors when they conflict. \
         Compose across sections when the question needs more than one kind of knowledge.\n\n\
         ### Retrieved facts\n\n{}### Retrieved memory\n\n{}### Retrieved memory\n\n{}### Retrieved memory\n\n{}{}</memory-context>",
        entry(1, "fact", "2"),
        entry(1, "unknown", "3"),
        entry(1, "alpha", "4"),
        entry(1, "zeta", "1"),
        entry(2, "zeta", "5"),
    );
    assert_eq!(format_memory_reminder(&results).unwrap(), expected);
}
