use grok_memory::kind::{classify_chunk, ChunkMeta, MemoryKind};

#[test]
fn classifies_type_field() {
    let text = "## Something\ntype: decision\nstatus: active\n\nWe chose X.\n";
    let meta = classify_chunk(text, "workspace");
    assert_eq!(meta.kind, MemoryKind::Decision);
    assert_eq!(meta.status, "active");
}

#[test]
fn classifies_heading_prefix() {
    let text = "## Decision: use worktrees\n\nIsolate subagents.\n";
    let meta = classify_chunk(text, "workspace");
    assert_eq!(meta.kind, MemoryKind::Decision);
}

#[test]
fn classifies_supersedes() {
    let text = "## Fact: API version\ntype: fact\nsupersedes: old-api-v1\n\nAPI is v2.\n";
    let meta = classify_chunk(text, "workspace");
    assert_eq!(meta.kind, MemoryKind::Fact);
    assert_eq!(meta.supersedes.as_deref(), Some("old-api-v1"));
}

#[test]
fn session_defaults_to_episode() {
    let text = "Discussed the flaky test briefly.\n";
    let meta = classify_chunk(text, "session");
    assert_eq!(meta.kind, MemoryKind::Episode);
}

#[test]
fn workspace_unknown_without_cues() {
    let text = "Some free-form notes without structure.\n";
    let meta = classify_chunk(text, "workspace");
    assert_eq!(meta.kind, MemoryKind::Unknown);
}

#[test]
fn preference_heading() {
    let text = "## Preferences\n\nAlways open PR links after push.\n";
    let meta = classify_chunk(text, "global");
    assert_eq!(meta.kind, MemoryKind::Preference);
}

#[test]
fn procedure_heading() {
    let text = "### Procedure: rebuild on OpenBSD\n\n1. cargo build -p xai-grok-memory\n";
    let meta = classify_chunk(text, "workspace");
    assert_eq!(meta.kind, MemoryKind::Procedure);
}

#[test]
fn parse_aliases() {
    assert_eq!(MemoryKind::from_str("adr").unwrap(), MemoryKind::Decision);
    assert_eq!(MemoryKind::from_str("runbook").unwrap(), MemoryKind::Procedure);
    assert!(MemoryKind::from_str("nonsense").is_err());
}

#[test]
fn every_alias_is_read() {
    let table = [
        ("fact", MemoryKind::Fact),
        ("facts", MemoryKind::Fact),
        ("decision", MemoryKind::Decision),
        ("decisions", MemoryKind::Decision),
        ("adr", MemoryKind::Decision),
        ("preference", MemoryKind::Preference),
        ("preferences", MemoryKind::Preference),
        ("pref", MemoryKind::Preference),
        ("prefs", MemoryKind::Preference),
        ("procedure", MemoryKind::Procedure),
        ("procedures", MemoryKind::Procedure),
        ("runbook", MemoryKind::Procedure),
        ("howto", MemoryKind::Procedure),
        ("how-to", MemoryKind::Procedure),
        ("episode", MemoryKind::Episode),
        ("session", MemoryKind::Episode),
        ("sessions", MemoryKind::Episode),
        ("entity", MemoryKind::Entity),
        ("entities", MemoryKind::Entity),
        ("unknown", MemoryKind::Unknown),
        ("", MemoryKind::Unknown),
    ];
    for (name, kind) in table {
        assert_eq!(MemoryKind::from_str(name), Ok(kind));
        assert_eq!(name.parse::<MemoryKind>(), Ok(kind));
        assert_eq!(MemoryKind::from_str(&format!("\t {} \n", name.to_uppercase())), Ok(kind));
    }
}

#[test]
fn kind_names_read_back() {
    for kind in MemoryKind::all_typed() {
        assert_eq!(MemoryKind::from_str(kind.as_str()), Ok(*kind));
        assert_eq!(kind.to_string(), kind.as_str());
    }
    assert_eq!(MemoryKind::all_typed().len(), 6);
    assert!(!MemoryKind::all_typed().contains(&MemoryKind::Unknown));
    assert_eq!(MemoryKind::from_str(MemoryKind::Unknown.as_str()), Ok(MemoryKind::Unknown));
    assert_eq!(MemoryKind::Episode.section_title(), "Retrieved session notes");
    assert_eq!(MemoryKind::Unknown.section_title(), "Retrieved memory");
}

#[test]
fn white_space_is_that_of_the_standard_library() {
    for c in '\u{0}'..=char::MAX {
        let padded = format!("{c}fact{c}");
        assert_eq!(MemoryKind::from_str(&padded).is_ok(), padded.trim() == "fact");
    }
    let spaces = [
        '\u{9}', '\u{a}', '\u{b}', '\u{c}', '\u{d}', ' ', '\u{85}', '\u{a0}', '\u{1680}',
        '\u{2000}', '\u{2001}', '\u{2002}', '\u{2003}', '\u{2004}', '\u{2005}', '\u{2006}',
        '\u{2007}', '\u{2008}', '\u{2009}', '\u{200a}', '\u{2028}', '\u{2029}', '\u{202f}',
        '\u{205f}', '\u{3000}',
    ];
    for c in '\u{0}'..=char::MAX {
        assert_eq!(
            MemoryKind::from_str(&format!("{c}fact")) == Ok(MemoryKind::Fact),
            spaces.contains(&c)
        );
    }
}

#[test]
fn default_metadata() {
    let meta = ChunkMeta::default();
    assert_eq!(meta.kind, MemoryKind::Unknown);
    assert_eq!(meta.supersedes, None);
    assert_eq!(meta.status, "active");
    assert_eq!(classify_chunk("", "workspace"), meta);
}

#[test]
fn later_fields_win_and_headings_do_not_override() {
    let text = "# Fact\ntype: nonsense\nKIND : ADR\n## Preferences\nStatus: DEPRECATED\nstatus: odd\nsupersedes:\nsupersedes: a: b\n";
    let meta = classify_chunk(text, "session");
    assert_eq!(meta.kind, MemoryKind::Decision);
    assert_eq!(meta.status, "superseded");
    assert_eq!(meta.supersedes.as_deref(), Some("a: b"));
}

#[test]
fn a_chunk_is_active_or_superseded() {
    let table = [
        ("no field", "active"),
        ("status: active", "active"),
        ("STATUS : Superseded", "superseded"),
        ("status: deprecated", "superseded"),
        ("status: odd", "active"),
        ("status: superseded\nstatus: active", "active"),
        ("## status: superseded", "active"),
    ];
    for (text, status) in table {
        assert_eq!(classify_chunk(text, "workspace").status, status);
    }
}

#[test]
fn heading_words_are_split_at_separators() {
    let table = [
        ("### Fact \u{2014} the schema", MemoryKind::Fact),
        ("#: | Runbook|x", MemoryKind::Procedure),
        ("## ENTITIES", MemoryKind::Entity),
        ("## how-to restack", MemoryKind::Unknown),
        ("## prefs", MemoryKind::Unknown),
        ("#", MemoryKind::Unknown),
        ("decision", MemoryKind::Unknown),
    ];
    for (text, kind) in table {
        assert_eq!(classify_chunk(text, "workspace").kind, kind);
    }
}

#[test]
fn only_the_first_lines_are_scanned() {
    let mut text = String::new();
    for _ in 0..39 {
        text.push_str("line\n\n");
    }
    let inside = format!("{text}type: fact\nstatus: superseded\n");
    let meta = classify_chunk(&inside, "workspace");
    assert_eq!(meta.kind, MemoryKind::Fact);
    assert_eq!(meta.status, "active");
}

#[test]
fn carriage_returns_end_no_line_by_themselves() {
    let meta = classify_chunk("type: fact\r\nstatus: superseded\r\n", "workspace");
    assert_eq!(meta.kind, MemoryKind::Fact);
    assert_eq!(meta.status, "superseded");
    let meta = classify_chunk("note\rtype: fact", "workspace");
    assert_eq!(meta.kind, MemoryKind::Unknown);
}
