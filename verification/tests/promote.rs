use grok_memory::kind::{classify_chunk, MemoryKind};
use grok_memory::promote::{
    extract_core_pins, format_core_pin_injection, format_remember_note, load_core_pins,
    mark_superseded_in_markdown, promote_entry, promote_with_supersession, CorePinConfig,
    CorePinSection, MemoryScope, StoreAction, TypedEntry,
};

/// Applies planned actions to the content of a file.
fn apply(content: &mut String, actions: &[StoreAction]) {
    for action in actions {
        match action {
            StoreAction::Rewrite { content: new, .. } => *content = new.clone(),
            StoreAction::Append { text, .. } => content.push_str(text),
        }
    }
}

#[test]
fn typed_entry_markdown_has_fields() {
    let e = TypedEntry::new(MemoryKind::Decision, "use worktrees", "Isolate subagents.")
        .with_id("dec-worktree")
        .superseding("dec-shared-cwd");
    let md = e.to_markdown();
    assert!(md.contains("## Decision: use worktrees"));
    assert!(md.contains("type: decision"));
    assert!(md.contains("status: active"));
    assert!(md.contains("id: dec-worktree"));
    assert!(md.contains("supersedes: dec-shared-cwd"));
    assert!(md.contains("Isolate subagents."));
}

#[test]
fn format_remember_infers_preference() {
    let md = format_remember_note("always open PR links after push", None);
    assert!(md.contains("type: preference"));
}

#[test]
fn format_remember_infers_decision() {
    let md = format_remember_note("we decided to vendor kqueue for OpenBSD", None);
    assert!(md.contains("type: decision"));
}

#[test]
fn extract_core_pins_prefers_active_preferences_and_decisions() {
    let md = r#"# Memory

## Preference: commit after green
type: preference
status: active

Always commit when tests pass.

## Decision: shared cwd
type: decision
status: superseded

Old approach.

## Decision: worktree isolation
type: decision
status: active

Use worktrees.

## Procedure: rebuild
type: procedure
status: active

cargo test -p xai-grok-memory
"#;
    let pins = extract_core_pins(md, &CorePinConfig::default());
    assert!(
        pins.iter().any(|p| p.kind == MemoryKind::Preference),
        "expected preference pin: {pins:?}"
    );
    assert!(
        pins.iter()
            .any(|p| p.kind == MemoryKind::Decision && p.text.contains("worktree")),
        "expected active decision: {pins:?}"
    );
    assert!(
        !pins.iter().any(|p| p.text.contains("shared cwd")),
        "superseded decision should not be pinned: {pins:?}"
    );
    assert!(
        pins.iter().all(|p| p.kind != MemoryKind::Procedure),
        "procedures should not be core-pinned by default: {pins:?}"
    );
    // Preference before decision (priority order).
    let pref_i = pins.iter().position(|p| p.kind == MemoryKind::Preference);
    let dec_i = pins.iter().position(|p| p.kind == MemoryKind::Decision);
    if let (Some(p), Some(d)) = (pref_i, dec_i) {
        assert!(p < d, "preferences should rank before decisions");
    }
}

#[test]
fn core_pin_respects_char_budget() {
    let mut md = String::from("# Memory\n\n");
    for i in 0..20 {
        md.push_str(&format!(
            "## Preference: pref {i}\ntype: preference\nstatus: active\n\n{}\n\n",
            "x".repeat(200)
        ));
    }
    let config = CorePinConfig {
        max_chars: 500,
        max_sections: 20,
        ..Default::default()
    };
    let pins = extract_core_pins(&md, &config);
    let total: usize = pins.iter().map(|p| p.text.len()).sum();
    assert!(total <= 500 + 300, "budget roughly respected: {total}");
    assert!(!pins.is_empty());
}

#[test]
fn mark_superseded_rewrites_status() {
    let md = "# Memory\n\n## Decision: old\ntype: decision\nstatus: active\nid: old-dec\n\nBody.\n";
    let out = mark_superseded_in_markdown(md, "old-dec").unwrap();
    assert!(out.contains("status: superseded"));
    assert!(!out.contains("status: active"));
}

#[test]
fn promote_entry_appends_to_workspace() {
    let entry = TypedEntry::new(MemoryKind::Fact, "schema v2", "schema_version is 2");
    let actions = promote_entry(MemoryScope::Workspace, &entry);
    assert_eq!(
        actions,
        vec![StoreAction::Append { scope: MemoryScope::Workspace, text: entry.to_markdown() }]
    );
    let mut content = String::new();
    apply(&mut content, &actions);
    assert!(content.contains("type: fact"));
    assert!(content.contains("schema_version is 2"));
}

#[test]
fn format_core_pin_injection_none_when_empty() {
    assert!(format_core_pin_injection(&[]).is_none());
}

#[test]
fn format_core_pin_injection_has_header() {
    let pins = vec![CorePinSection {
        kind: MemoryKind::Preference,
        title: "commit".into(),
        text: "## Preference: commit\ntype: preference\nstatus: active\n\nAlways commit.\n".into(),
    }];
    let s = format_core_pin_injection(&pins).unwrap();
    assert!(s.contains("Soft-Internal Core"));
    assert!(s.contains("Always commit"));
}

#[test]
fn promote_with_supersession_marks_old() {
    let mut content = String::new();
    let old = TypedEntry::new(MemoryKind::Decision, "shared cwd", "Use parent cwd.")
        .with_id("dec-shared");
    apply(&mut content, &promote_entry(MemoryScope::Workspace, &old));
    let new = TypedEntry::new(MemoryKind::Decision, "worktrees", "Use worktrees.")
        .with_id("dec-wt")
        .superseding("dec-shared");
    let actions = promote_with_supersession(MemoryScope::Workspace, &new, Some(&content));
    apply(&mut content, &actions);
    assert!(content.contains("status: superseded"));
    assert!(content.contains("worktrees"));
    assert!(content.contains("supersedes: dec-shared"));

    // Only the new decision is pinned.
    let pins = extract_core_pins(&content, &CorePinConfig::default());
    assert_eq!(pins.len(), 1);
    assert_eq!(pins[0].title, "Decision: worktrees");
}

#[test]
fn nothing_is_rewritten_without_a_target() {
    let new = TypedEntry::new(MemoryKind::Decision, "a", "b").superseding("gone");
    let append = StoreAction::Append { scope: MemoryScope::Global, text: new.to_markdown() };
    for existing in [None, Some(""), Some("## Decision: a\nid: other\n")] {
        assert_eq!(
            promote_with_supersession(MemoryScope::Global, &new, existing),
            vec![append.clone()]
        );
    }
    let plain = TypedEntry::new(MemoryKind::Decision, "a", "b");
    assert_eq!(
        promote_with_supersession(MemoryScope::Global, &plain, Some("## a\nid: a\n")).len(),
        1
    );
}

#[test]
fn entry_text() {
    let e = TypedEntry::new(MemoryKind::Unknown, "  t  ", "\n body \n").superseded();
    assert_eq!(e.to_markdown(), "## Note: t\ntype: unknown\nstatus: superseded\n\nbody\n");
    let e = TypedEntry::new(MemoryKind::Episode, "t", " \n").with_id("i").superseding("o");
    assert_eq!(
        e.to_markdown(),
        "## Episode: t\ntype: episode\nstatus: active\nid: i\nsupersedes: o\n\n"
    );
}

#[test]
fn entries_read_back() {
    for kind in MemoryKind::all_typed() {
        let e = TypedEntry::new(*kind, "use worktrees", "Isolate subagents.\nAlways.")
            .with_id("dec-worktree")
            .superseding(" dec-shared-cwd ")
            .superseded();
        let meta = classify_chunk(&e.to_markdown(), "session");
        assert_eq!(meta.kind, *kind);
        assert_eq!(meta.status, "superseded");
        assert_eq!(meta.supersedes.as_deref(), Some("dec-shared-cwd"));
    }
}

#[test]
fn fields_in_the_body_come_last() {
    let e = TypedEntry::new(
        MemoryKind::Fact,
        "t",
        "## Preferences\nStatus: deprecated\nsupersedes: x\nkind: entity",
    )
    .superseding("y");
    let meta = classify_chunk(&e.to_markdown(), "workspace");
    assert_eq!(meta.kind, MemoryKind::Entity);
    assert_eq!(meta.status, "superseded");
    assert_eq!(meta.supersedes.as_deref(), Some("x"));
    let note = format_remember_note("## Preferences\nx", Some(MemoryKind::Unknown));
    assert_eq!(classify_chunk(&note, "workspace").kind, MemoryKind::Preference);
    let note = format_remember_note("plain", Some(MemoryKind::Unknown));
    assert_eq!(classify_chunk(&note, "session").kind, MemoryKind::Episode);
}

#[test]
fn remembered_notes() {
    assert_eq!(format_remember_note(" \n\t", None), "");
    assert_eq!(
        format_remember_note("## remember: the API is v2\nmore", None),
        "## Fact: the API is v2\ntype: fact\nstatus: active\n\n## remember: the API is v2\nmore\n"
    );
    assert_eq!(
        format_remember_note("Remember:", Some(MemoryKind::Entity)),
        "## Entity: note\ntype: entity\nstatus: active\n\nRemember:\n"
    );
    let md = format_remember_note("Runbook for x", None);
    assert!(md.starts_with("## Procedure: Runbook for x\n"));
    let long = "y".repeat(81);
    let md = format_remember_note(&long, None);
    assert!(md.starts_with(&format!("## Fact: {}\u{2026}\n", "y".repeat(80))));
    let full = "y".repeat(80);
    let md = format_remember_note(&full, None);
    assert!(md.starts_with(&format!("## Fact: {}\n", "y".repeat(80))));
}

#[test]
fn core_pins_are_exact() {
    let md = "intro\n## Fact: f\nx\n### deep\n## Decision: d1\n\n## Preference: p\nstatus: deprecated\n## Decision: d2\ny";
    let pins = extract_core_pins(md, &CorePinConfig::default());
    let texts: Vec<&str> = pins.iter().map(|p| p.text.as_str()).collect();
    assert_eq!(texts, vec!["## Decision: d1", "## Decision: d2\ny", "## Fact: f\nx\n### deep"]);
    let titles: Vec<&str> = pins.iter().map(|p| p.title.as_str()).collect();
    assert_eq!(titles, vec!["Decision: d1", "Decision: d2", "Fact: f"]);

    // The first pin is taken whatever its length; others have to fit.
    let config = CorePinConfig { max_chars: 3, ..Default::default() };
    assert_eq!(extract_core_pins(md, &config).len(), 1);
    let config = CorePinConfig { max_chars: 15 + 17, ..Default::default() };
    assert_eq!(extract_core_pins(md, &config).len(), 2);
    let config = CorePinConfig { max_chars: 15 + 16, ..Default::default() };
    assert_eq!(extract_core_pins(md, &config).len(), 1);
    let config = CorePinConfig { max_sections: 0, ..Default::default() };
    assert!(extract_core_pins(md, &config).is_empty());
    let config = CorePinConfig { kind_priority: vec![MemoryKind::Fact], ..Default::default() };
    assert_eq!(extract_core_pins(md, &config).len(), 1);
}

#[test]
fn the_budget_counts_characters() {
    let md = "## Fact: a\n## Fact: \u{e9}\u{e9}\n";
    let config = CorePinConfig { max_chars: 10 + 11, ..Default::default() };
    assert_eq!(extract_core_pins(md, &config).len(), 2);
    let config = CorePinConfig { max_chars: 10 + 10, ..Default::default() };
    assert_eq!(extract_core_pins(md, &config).len(), 1);
    let md = "## Preference: \u{e9}\n## Preference: \u{e8}\n";
    let config = CorePinConfig { max_chars: 32, max_sections: 8, ..Default::default() };
    assert_eq!(extract_core_pins(md, &config).len(), 2);
}

#[test]
fn core_pins_of_two_files() {
    let config = CorePinConfig::default();
    assert!(load_core_pins(None, None, &config).is_empty());
    assert!(load_core_pins(Some(" \n"), Some(""), &config).is_empty());
    let pins = load_core_pins(Some("## Fact: g"), Some("## Decision: w\n"), &config);
    let texts: Vec<&str> = pins.iter().map(|p| p.text.as_str()).collect();
    assert_eq!(texts, vec!["## Decision: w", "## Fact: g"]);
    assert_eq!(load_core_pins(None, Some("## Fact: w"), &config).len(), 1);
    assert_eq!(load_core_pins(Some("## Fact: w"), Some(" "), &config).len(), 1);
}

#[test]
fn core_pin_injection_text() {
    let pin = |text: &str| CorePinSection {
        kind: MemoryKind::Fact,
        title: "t".into(),
        text: text.into(),
    };
    assert_eq!(
        format_core_pin_injection(&[pin("a"), pin("b\n")]).unwrap(),
        "## Soft-Internal Core (always on)\n\n\
         These are high-priority preferences and active decisions. \
         Prefer them over model priors. They do not expire with session logs.\n\n\
         a\n\nb\n\n"
    );
}

#[test]
fn marking_keeps_the_rest() {
    let md = "intro\n\n## A\nx\n## B: old-b\ny\n## C\n id:  old-b \n  status: active\nStatus: z\n";
    assert_eq!(
        mark_superseded_in_markdown(md, "old-b").unwrap(),
        "intro\n\n## A\nx\n\n## B: old-b\ny\n\n## C\n id:  old-b \nstatus: superseded\nStatus: z\n\n"
    );
    assert!(mark_superseded_in_markdown(md, "").is_none());
    assert!(mark_superseded_in_markdown(md, "absent").is_none());
    // The id occurs, but it names no section.
    assert!(mark_superseded_in_markdown(
        "## Fact: threshold\nstatus: active\nid: f1\n",
        "old"
    )
    .is_none());
    assert!(mark_superseded_in_markdown("## A\nold-b\n", "old-b").is_none());
    assert!(mark_superseded_in_markdown("id: old-b\n## A\n", "old-b").is_none());
}

#[test]
fn marking_twice() {
    let md = "pre\r\n## A\r\nid: a1\r\n## B\nx\n";
    let once = mark_superseded_in_markdown(md, "a1").unwrap();
    assert_eq!(once, "pre\r\n## A\nid: a1\nstatus: superseded\n\n## B\nx\n\n");
    let twice = mark_superseded_in_markdown(&once, "a1").unwrap();
    assert_eq!(twice, "pre\r\n## A\nid: a1\nstatus: superseded\n\n\n## B\nx\n\n\n");
    // A carriage return before a line end is dropped each time that the text
    // is split: once for a section that stays, twice for one that is marked.
    let out = mark_superseded_in_markdown("## A\nid: a1\nx\r\r\n## B\ny\r\r\n", "a1").unwrap();
    assert_eq!(out, "## A\nid: a1\nx\nstatus: superseded\n\n## B\ny\r\n\n");
}

#[test]
fn a_status_in_another_spelling_stays() {
    let md = "## Decision: a\nid: a1\nstatus: active\nStatus: active\n";
    let out = mark_superseded_in_markdown(md, "a1").unwrap();
    assert_eq!(extract_core_pins(&out, &CorePinConfig::default()).len(), 1);
    let md = "## Decision: a\nid: a1\nStatus: active\n";
    let out = mark_superseded_in_markdown(md, "a1").unwrap();
    assert!(extract_core_pins(&out, &CorePinConfig::default()).is_empty());
}

#[test]
fn marking_a_text_that_begins_with_a_heading() {
    let md = "## A\nid: a1\nstatus: active\n## B\nid: b1\nstatus: active\n";
    let out = mark_superseded_in_markdown(md, "a1").unwrap();
    assert_eq!(
        out,
        "## A\nid: a1\nstatus: superseded\n\n## B\nid: b1\nstatus: active\n\n"
    );
}
