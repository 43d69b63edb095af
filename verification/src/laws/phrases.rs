//! The words that decide: what a query asks for, what a note is about, what a
//! heading names and what is a greeting.

use crate::compose;
use crate::kind;
use crate::kind::MemoryKind;
use crate::laws::retrieval;
use crate::memory_context;
use crate::promote;
use crate::text;
use crate::text::CharSet;
use crate::text_facts;
use vstd::prelude::*;

verus! {

// ---------------------------------------------------------------------------
// Letters and substrings
// ---------------------------------------------------------------------------

/// A text in small letters is as long as the text; each of the letters `A` to
/// `Z` becomes the one that stands 32 places after it, and nothing else changes.
pub proof fn law_lowercase(s: Seq<char>, i: int)
    requires
        0 <= i < s.len(),
    ensures
        text::lowercase(s).len() == s.len(),
        65 <= s[i] as int <= 90 ==> text::lowercase(s)[i] as int == s[i] as int + 32,
        !(65 <= s[i] as int <= 90) ==> text::lowercase(s)[i] == s[i],
{
}

/// A text holds another exactly where that one stands between a text before
/// it and one after it.
pub proof fn law_contains(s: Seq<char>, needle: Seq<char>)
    ensures
        text::contains(s, needle) <==> exists|before: Seq<char>, after: Seq<char>|
            s == #[trigger] (before + needle + after),
{
    if text::contains(s, needle) {
        let i = choose|i: int| text::occurs_at(s, needle, i);
        let before = s.take(i);
        let after = s.skip(i + needle.len());
        assert(s =~= before + s.subrange(i, i + needle.len()) + after);
        assert(s == before + needle + after);
    }
    if exists|before: Seq<char>, after: Seq<char>| s == #[trigger] (before + needle + after) {
        let (before, after) = choose|before: Seq<char>, after: Seq<char>|
            s == #[trigger] (before + needle + after);
        let i = before.len() as int;
        assert(s.subrange(i, i + needle.len()) =~= needle);
        assert(text::occurs_at(s, needle, i));
    }
}

/// A text begins with another exactly where it is that one and more.
pub proof fn law_starts_with(s: Seq<char>, prefix: Seq<char>)
    ensures
        text::starts_with(s, prefix) <==> exists|rest: Seq<char>| s == #[trigger] (prefix + rest),
{
    if text::starts_with(s, prefix) {
        let rest = s.skip(prefix.len() as int);
        assert(s =~= s.take(prefix.len() as int) + rest);
        assert(s == prefix + rest);
    }
    if exists|rest: Seq<char>| s == #[trigger] (prefix + rest) {
        let rest = choose|rest: Seq<char>| s == #[trigger] (prefix + rest);
        assert(s.take(prefix.len() as int) =~= prefix);
    }
}

// ---------------------------------------------------------------------------
// Queries
// ---------------------------------------------------------------------------

/// Whether the small letters of a text hold a phrase.
pub open spec fn holds(s: Seq<char>, phrase: Seq<char>) -> bool {
    text::contains(text::lowercase(s), phrase)
}

/// Whether a query speaks of a decision.
pub open spec fn speaks_of_decision(q: Seq<char>) -> bool {
    ||| holds(q, "decision"@)
    ||| holds(q, "decided"@)
    ||| holds(q, "why did we"@)
    ||| holds(q, "why do we"@)
    ||| holds(q, "chose"@)
    ||| holds(q, "chosen"@)
    ||| holds(q, "architecture"@)
    ||| holds(q, "adr"@)
    ||| holds(q, "rejected"@)
    ||| holds(q, "instead of"@)
}

/// Whether a query speaks of a procedure.
pub open spec fn speaks_of_procedure(q: Seq<char>) -> bool {
    ||| holds(q, "how do we"@)
    ||| holds(q, "how to"@)
    ||| holds(q, "how did we"@)
    ||| holds(q, "runbook"@)
    ||| holds(q, "procedure"@)
    ||| holds(q, "steps to"@)
    ||| holds(q, "debug"@)
    ||| holds(q, "rebuild"@)
    ||| holds(q, "workflow"@)
}

/// Whether a query speaks of a preference.
pub open spec fn speaks_of_preference(q: Seq<char>) -> bool {
    ||| holds(q, "prefer"@)
    ||| holds(q, "preference"@)
    ||| holds(q, "always"@)
    ||| holds(q, "never "@)
    ||| holds(q, "habit"@)
    ||| holds(q, "style"@)
}

/// Whether a query speaks of a fact.
pub open spec fn speaks_of_fact(q: Seq<char>) -> bool {
    ||| holds(q, "what is"@)
    ||| holds(q, "what's"@)
    ||| holds(q, "fact"@)
    ||| holds(q, "version"@)
    ||| holds(q, "which crate"@)
    ||| holds(q, "where is"@)
    ||| holds(q, "api"@)
}

/// Whether a query speaks of an entity.
pub open spec fn speaks_of_entity(q: Seq<char>) -> bool {
    ||| holds(q, "who is"@)
    ||| holds(q, "who owns"@)
    ||| holds(q, "service "@)
    ||| holds(q, "ticket"@)
}

/// Whether a query speaks of an earlier session.
pub open spec fn speaks_of_episode(q: Seq<char>) -> bool {
    ||| holds(q, "last session"@)
    ||| holds(q, "yesterday"@)
    ||| holds(q, "earlier today"@)
    ||| holds(q, "we discussed"@)
    ||| holds(q, "last time"@)
}

/// Whether a query joins two questions.
pub open spec fn joins_questions(q: Seq<char>) -> bool {
    ||| holds(q, " and "@)
    ||| holds(q, " both "@)
    ||| holds(q, " as well as "@)
    ||| holds(q, " plus "@)
    ||| holds(q, "why and how"@)
    ||| holds(q, "decision and"@)
    ||| holds(q, "and what"@)
    ||| holds(q, "and how"@)
}

/// Whether a query speaks of a preference, an entity or an earlier session.
pub open spec fn speaks_of_more(q: Seq<char>) -> bool {
    speaks_of_preference(q) || speaks_of_entity(q) || speaks_of_episode(q)
}

/// A query asks for a decision by these phrases.
proof fn lemma_speaks_of_decision(q: Seq<char>)
    ensures
        compose::asks_for(q, MemoryKind::Decision) == speaks_of_decision(q),
{
    let list = compose::cues(MemoryKind::Decision);
    let lower = text::lowercase(q);
    assert(list[0] == "decision"@);
    assert(list[1] == "decided"@);
    assert(list[2] == "why did we"@);
    assert(list[3] == "why do we"@);
    assert(list[4] == "chose"@);
    assert(list[5] == "chosen"@);
    assert(list[6] == "architecture"@);
    assert(list[7] == "adr"@);
    assert(list[8] == "rejected"@);
    assert(list[9] == "instead of"@);
    if compose::asks_for(q, MemoryKind::Decision) {
        let k = choose|k: int|
            0 <= k < list.len() && text::contains(lower, #[trigger] list[k]);
        assert(holds(q, list[k]));
    }
    if speaks_of_decision(q) {
        assert(exists|k: int| 0 <= k < list.len() && text::contains(lower, #[trigger] list[k]));
    }
}

/// A query asks for a procedure by these phrases.
proof fn lemma_speaks_of_procedure(q: Seq<char>)
    ensures
        compose::asks_for(q, MemoryKind::Procedure) == speaks_of_procedure(q),
{
    let list = compose::cues(MemoryKind::Procedure);
    let lower = text::lowercase(q);
    assert(list[0] == "how do we"@);
    assert(list[1] == "how to"@);
    assert(list[2] == "how did we"@);
    assert(list[3] == "runbook"@);
    assert(list[4] == "procedure"@);
    assert(list[5] == "steps to"@);
    assert(list[6] == "debug"@);
    assert(list[7] == "rebuild"@);
    assert(list[8] == "workflow"@);
    if compose::asks_for(q, MemoryKind::Procedure) {
        let k = choose|k: int|
            0 <= k < list.len() && text::contains(lower, #[trigger] list[k]);
        assert(holds(q, list[k]));
    }
    if speaks_of_procedure(q) {
        assert(exists|k: int| 0 <= k < list.len() && text::contains(lower, #[trigger] list[k]));
    }
}

/// A query asks for a preference by these phrases.
proof fn lemma_speaks_of_preference(q: Seq<char>)
    ensures
        compose::asks_for(q, MemoryKind::Preference) == speaks_of_preference(q),
{
    let list = compose::cues(MemoryKind::Preference);
    let lower = text::lowercase(q);
    assert(list[0] == "prefer"@);
    assert(list[1] == "preference"@);
    assert(list[2] == "always"@);
    assert(list[3] == "never "@);
    assert(list[4] == "habit"@);
    assert(list[5] == "style"@);
    if compose::asks_for(q, MemoryKind::Preference) {
        let k = choose|k: int|
            0 <= k < list.len() && text::contains(lower, #[trigger] list[k]);
        assert(holds(q, list[k]));
    }
    if speaks_of_preference(q) {
        assert(exists|k: int| 0 <= k < list.len() && text::contains(lower, #[trigger] list[k]));
    }
}

/// A query asks for a fact by these phrases.
proof fn lemma_speaks_of_fact(q: Seq<char>)
    ensures
        compose::asks_for(q, MemoryKind::Fact) == speaks_of_fact(q),
{
    let list = compose::cues(MemoryKind::Fact);
    let lower = text::lowercase(q);
    assert(list[0] == "what is"@);
    assert(list[1] == "what's"@);
    assert(list[2] == "fact"@);
    assert(list[3] == "version"@);
    assert(list[4] == "which crate"@);
    assert(list[5] == "where is"@);
    assert(list[6] == "api"@);
    if compose::asks_for(q, MemoryKind::Fact) {
        let k = choose|k: int|
            0 <= k < list.len() && text::contains(lower, #[trigger] list[k]);
        assert(holds(q, list[k]));
    }
    if speaks_of_fact(q) {
        assert(exists|k: int| 0 <= k < list.len() && text::contains(lower, #[trigger] list[k]));
    }
}

/// A query asks for an entity by these phrases.
proof fn lemma_speaks_of_entity(q: Seq<char>)
    ensures
        compose::asks_for(q, MemoryKind::Entity) == speaks_of_entity(q),
{
    let list = compose::cues(MemoryKind::Entity);
    let lower = text::lowercase(q);
    assert(list[0] == "who is"@);
    assert(list[1] == "who owns"@);
    assert(list[2] == "service "@);
    assert(list[3] == "ticket"@);
    if compose::asks_for(q, MemoryKind::Entity) {
        let k = choose|k: int|
            0 <= k < list.len() && text::contains(lower, #[trigger] list[k]);
        assert(holds(q, list[k]));
    }
    if speaks_of_entity(q) {
        assert(exists|k: int| 0 <= k < list.len() && text::contains(lower, #[trigger] list[k]));
    }
}

/// A query asks for an episode by these phrases.
proof fn lemma_speaks_of_episode(q: Seq<char>)
    ensures
        compose::asks_for(q, MemoryKind::Episode) == speaks_of_episode(q),
{
    let list = compose::cues(MemoryKind::Episode);
    let lower = text::lowercase(q);
    assert(list[0] == "last session"@);
    assert(list[1] == "yesterday"@);
    assert(list[2] == "earlier today"@);
    assert(list[3] == "we discussed"@);
    assert(list[4] == "last time"@);
    if compose::asks_for(q, MemoryKind::Episode) {
        let k = choose|k: int|
            0 <= k < list.len() && text::contains(lower, #[trigger] list[k]);
        assert(holds(q, list[k]));
    }
    if speaks_of_episode(q) {
        assert(exists|k: int| 0 <= k < list.len() && text::contains(lower, #[trigger] list[k]));
    }
}

/// A query joins questions by these phrases.
proof fn lemma_joins_questions(q: Seq<char>)
    ensures
        compose::is_joined(q) == joins_questions(q),
{
    let list = compose::joining_cues();
    let lower = text::lowercase(q);
    assert(list[0] == " and "@);
    assert(list[1] == " both "@);
    assert(list[2] == " as well as "@);
    assert(list[3] == " plus "@);
    assert(list[4] == "why and how"@);
    assert(list[5] == "decision and"@);
    assert(list[6] == "and what"@);
    assert(list[7] == "and how"@);
    if compose::is_joined(q) {
        let k = choose|k: int|
            0 <= k < list.len() && text::contains(lower, #[trigger] list[k]);
        assert(holds(q, list[k]));
    }
    if joins_questions(q) {
        assert(exists|k: int| 0 <= k < list.len() && text::contains(lower, #[trigger] list[k]));
    }
}

/// A query asks for no unknown kind.
proof fn lemma_speaks_of_unknown(q: Seq<char>)
    ensures
        !compose::asks_for(q, MemoryKind::Unknown),
{
    let list = compose::cues(MemoryKind::Unknown);
    assert(list.len() == 0);
}

/// The kinds that a query is decomposed into, told by its phrases: a kind is
/// there where the query holds one of its phrases. Where the query joins two
/// questions and tells no kind, a decision and a procedure are there; where it
/// tells a decision only, a procedure is added; and where it tells a procedure
/// or a fact only, a decision is added. Nothing else is there.
pub proof fn law_query_kinds_by_phrases(q: Seq<char>)
    ensures
        ({
            let kinds = compose::query_kinds(q);
            let d = speaks_of_decision(q);
            let p = speaks_of_procedure(q);
            let f = speaks_of_fact(q);
            let more = speaks_of_more(q);
            &&& kinds.contains(MemoryKind::Decision) <==> d || (joins_questions(q) && !more && !(p
                && f))
            &&& kinds.contains(MemoryKind::Procedure) <==> p || (joins_questions(q) && !f && !more)
            &&& kinds.contains(MemoryKind::Fact) <==> f
            &&& kinds.contains(MemoryKind::Preference) <==> speaks_of_preference(q)
            &&& kinds.contains(MemoryKind::Entity) <==> speaks_of_entity(q)
            &&& kinds.contains(MemoryKind::Episode) <==> speaks_of_episode(q)
            &&& !kinds.contains(MemoryKind::Unknown)
        }),
{
    retrieval::law_query_kinds(q);
    lemma_speaks_of_decision(q);
    lemma_speaks_of_procedure(q);
    lemma_speaks_of_preference(q);
    lemma_speaks_of_fact(q);
    lemma_speaks_of_entity(q);
    lemma_speaks_of_episode(q);
    lemma_joins_questions(q);
    lemma_speaks_of_unknown(q);
    let kinds = compose::query_kinds(q);
    assert(kinds.contains(MemoryKind::Decision) == compose::needs(q, MemoryKind::Decision));
    assert(kinds.contains(MemoryKind::Procedure) == compose::needs(q, MemoryKind::Procedure));
    assert(compose::asks_for_none(q) ==> !speaks_of_decision(q) && !speaks_of_procedure(q)
        && !speaks_of_fact(q) && !speaks_of_more(q));
    assert(!speaks_of_decision(q) && !speaks_of_procedure(q) && !speaks_of_fact(q)
        && !speaks_of_more(q) ==> compose::asks_for_none(q)) by {
        assert forall|kind: MemoryKind|
            !speaks_of_decision(q) && !speaks_of_procedure(q) && !speaks_of_fact(q)
                && !speaks_of_more(q) implies !#[trigger] compose::asks_for(q, kind) by {
            match kind {
                MemoryKind::Decision => {},
                _ => {},
            }
        }
    }
}

// ---------------------------------------------------------------------------
// Notes
// ---------------------------------------------------------------------------

/// The kind of a note, told by its phrases: those of a decision come first,
/// then those of a preference, then those of a procedure; without any of them
/// it is a fact.
pub proof fn law_note_kind_by_phrases(note: Seq<char>)
    ensures
        ({
            let d = holds(note, "decid"@) || holds(note, "we chose"@) || holds(
                note,
                "architecture"@,
            );
            let p = holds(note, "always"@) || holds(note, "never "@) || holds(note, "prefer"@);
            let h = holds(note, "how to"@) || holds(note, "steps:"@) || holds(note, "runbook"@)
                || holds(note, "procedure"@);
            let kind = promote::inferred_kind(note);
            &&& d ==> kind == MemoryKind::Decision
            &&& !d && p ==> kind == MemoryKind::Preference
            &&& !d && !p && h ==> kind == MemoryKind::Procedure
            &&& !d && !p && !h ==> kind == MemoryKind::Fact
        }),
{
    reveal_strlit("preference");
    reveal_strlit("prefer");
    let lower = text::lowercase(note);
    if text::contains(lower, "preference"@) {
        let i = choose|i: int| text::occurs_at(lower, "preference"@, i);
        assert(lower.subrange(i, i + 6) =~= "prefer"@) by {
            assert forall|k: int| 0 <= k < 6 implies lower.subrange(i, i + 6)[k]
                == #[trigger] "prefer"@[k] by {
                assert(lower.subrange(i, i + 10)[k] == "preference"@[k]);
            }
        }
        assert(text::occurs_at(lower, "prefer"@, i));
    }
}

// ---------------------------------------------------------------------------
// Names and titles
// ---------------------------------------------------------------------------

/// The names of the kinds, the titles of their sections and the words that
/// open the headings of their entries. The two formatters use the same titles,
/// and the same order of sections.
pub proof fn law_names_of_kinds()
    ensures
        kind::kind_name(MemoryKind::Fact) == "fact"@,
        kind::kind_name(MemoryKind::Decision) == "decision"@,
        kind::kind_name(MemoryKind::Preference) == "preference"@,
        kind::kind_name(MemoryKind::Procedure) == "procedure"@,
        kind::kind_name(MemoryKind::Episode) == "episode"@,
        kind::kind_name(MemoryKind::Entity) == "entity"@,
        kind::kind_name(MemoryKind::Unknown) == "unknown"@,
        kind::kind_section_heading(MemoryKind::Fact) == "Retrieved facts"@,
        kind::kind_section_heading(MemoryKind::Decision) == "Retrieved decisions"@,
        kind::kind_section_heading(MemoryKind::Preference) == "Retrieved preferences"@,
        kind::kind_section_heading(MemoryKind::Procedure) == "Retrieved procedures"@,
        kind::kind_section_heading(MemoryKind::Episode) == "Retrieved session notes"@,
        kind::kind_section_heading(MemoryKind::Entity) == "Retrieved entities"@,
        kind::kind_section_heading(MemoryKind::Unknown) == "Retrieved memory"@,
        promote::kind_label(MemoryKind::Fact) == "Fact"@,
        promote::kind_label(MemoryKind::Decision) == "Decision"@,
        promote::kind_label(MemoryKind::Preference) == "Preference"@,
        promote::kind_label(MemoryKind::Procedure) == "Procedure"@,
        promote::kind_label(MemoryKind::Episode) == "Episode"@,
        promote::kind_label(MemoryKind::Entity) == "Entity"@,
        promote::kind_label(MemoryKind::Unknown) == "Note"@,
        compose::section_order() == seq![
            MemoryKind::Decision,
            MemoryKind::Fact,
            MemoryKind::Procedure,
            MemoryKind::Preference,
            MemoryKind::Entity,
            MemoryKind::Episode,
            MemoryKind::Unknown,
        ],
        memory_context::named_order() == Seq::new(
            compose::section_order().len(),
            |i: int| kind::kind_name(compose::section_order()[i]),
        ),
{
    assert(memory_context::named_order() =~= Seq::new(
        compose::section_order().len(),
        |i: int| kind::kind_name(compose::section_order()[i]),
    ));
}

/// A result whose kind is told by its name is shown under the title of that
/// kind, and one with any other kind under the general title.
pub proof fn law_titles_agree(kind: MemoryKind, other: Seq<char>)
    ensures
        memory_context::section_heading(kind::kind_name(kind)) == kind::kind_section_heading(kind),
        (forall|k: MemoryKind| other != #[trigger] kind::kind_name(k))
            ==> memory_context::section_heading(other) == "Retrieved memory"@,
{
    reveal_strlit("decision");
    reveal_strlit("fact");
    reveal_strlit("procedure");
    reveal_strlit("preference");
    reveal_strlit("entity");
    reveal_strlit("episode");
    reveal_strlit("unknown");
    assert("decision"@.len() == 8);
    assert("fact"@.len() == 4);
    assert("procedure"@.len() == 9);
    assert("preference"@.len() == 10);
    assert("entity"@.len() == 6);
    assert("episode"@.len() == 7);
    assert("unknown"@.len() == 7);
    assert("unknown"@[0] != "episode"@[0]);
    assert(kind::kind_name(MemoryKind::Decision) == "decision"@);
    assert(kind::kind_name(MemoryKind::Fact) == "fact"@);
    assert(kind::kind_name(MemoryKind::Procedure) == "procedure"@);
    assert(kind::kind_name(MemoryKind::Preference) == "preference"@);
    assert(kind::kind_name(MemoryKind::Entity) == "entity"@);
    assert(kind::kind_name(MemoryKind::Episode) == "episode"@);
}

/// The words that a `type` or `kind` field may name a kind by, and those that
/// a heading may.
pub proof fn law_words_for_kinds(word: Seq<char>)
    ensures
        kind::named_kind(word) == Some(MemoryKind::Fact) <==> word == "fact"@ || word == "facts"@,
        kind::named_kind(word) == Some(MemoryKind::Decision) <==> word == "decision"@ || word
            == "decisions"@ || word == "adr"@,
        kind::named_kind(word) == Some(MemoryKind::Preference) <==> word == "preference"@ || word
            == "preferences"@ || word == "pref"@ || word == "prefs"@,
        kind::named_kind(word) == Some(MemoryKind::Procedure) <==> word == "procedure"@ || word
            == "procedures"@ || word == "runbook"@ || word == "howto"@ || word == "how-to"@,
        kind::named_kind(word) == Some(MemoryKind::Episode) <==> word == "episode"@ || word
            == "session"@ || word == "sessions"@,
        kind::named_kind(word) == Some(MemoryKind::Entity) <==> word == "entity"@ || word
            == "entities"@,
        kind::named_kind(word) == Some(MemoryKind::Unknown) <==> word == "unknown"@ || word.len()
            == 0,
        kind::heading_word_kind(word) == (if kind::named_kind(word) == Some(MemoryKind::Unknown)
            || word == "prefs"@ || word == "how-to"@ {
            None
        } else {
            kind::named_kind(word)
        }),
{
    reveal_strlit("fact");
    reveal_strlit("facts");
    reveal_strlit("decision");
    reveal_strlit("decisions");
    reveal_strlit("adr");
    reveal_strlit("preference");
    reveal_strlit("preferences");
    reveal_strlit("pref");
    reveal_strlit("prefs");
    reveal_strlit("procedure");
    reveal_strlit("procedures");
    reveal_strlit("runbook");
    reveal_strlit("howto");
    reveal_strlit("how-to");
    reveal_strlit("episode");
    reveal_strlit("session");
    reveal_strlit("sessions");
    reveal_strlit("entity");
    reveal_strlit("entities");
    reveal_strlit("unknown");
    reveal_strlit("");
    assert("fact"@.len() == 4 && "fact"@[0] == 'f');
    assert("facts"@.len() == 5 && "facts"@[0] == 'f');
    assert("decision"@.len() == 8 && "decision"@[0] == 'd');
    assert("decisions"@.len() == 9 && "decisions"@[0] == 'd');
    assert("adr"@.len() == 3 && "adr"@[0] == 'a');
    assert("preference"@.len() == 10 && "preference"@[0] == 'p');
    assert("preferences"@.len() == 11 && "preferences"@[0] == 'p');
    assert("pref"@.len() == 4 && "pref"@[0] == 'p');
    assert("prefs"@.len() == 5 && "prefs"@[0] == 'p');
    assert("procedure"@.len() == 9 && "procedure"@[0] == 'p');
    assert("procedures"@.len() == 10 && "procedures"@[2] == 'o');
    assert("preference"@[2] == 'e');
    assert("runbook"@.len() == 7 && "runbook"@[0] == 'r');
    assert("howto"@.len() == 5 && "howto"@[0] == 'h');
    assert("how-to"@.len() == 6 && "how-to"@[0] == 'h');
    assert("episode"@.len() == 7 && "episode"@[0] == 'e');
    assert("session"@.len() == 7 && "session"@[0] == 's');
    assert("sessions"@.len() == 8 && "sessions"@[0] == 's');
    assert("entity"@.len() == 6 && "entity"@[0] == 'e');
    assert("entities"@.len() == 8 && "entities"@[0] == 'e');
    assert("unknown"@.len() == 7 && "unknown"@[0] == 'u');
    assert(""@.len() == 0);
    if word.len() == 0 {
        assert(word =~= ""@);
    }
}

// ---------------------------------------------------------------------------
// Greetings
// ---------------------------------------------------------------------------

/// Whether a text is one of the greetings and generic openers.
pub open spec fn is_opener(s: Seq<char>) -> bool {
    ||| s == "hi"@
    ||| s == "hey"@
    ||| s == "hello"@
    ||| s == "howdy"@
    ||| s == "continue"@
    ||| s == "start"@
    ||| s == "begin"@
    ||| s == "go"@
    ||| s == "good morning"@
    ||| s == "good afternoon"@
    ||| s == "good evening"@
    ||| s == "what's up"@
    ||| s == "whats up"@
    ||| s == "sup"@
}

/// Whether every character is a mark that may close a greeting.
pub open spec fn all_marks(s: Seq<char>) -> bool {
    forall|k: int|
        0 <= k < s.len() ==> (#[trigger] s[k] == '.' || s[k] == '!' || s[k] == '?' || s[k] == ',')
}

/// An opener begins and ends with a letter.
proof fn lemma_opener(s: Seq<char>)
    requires
        is_opener(s),
    ensures
        text_facts::is_tight(s),
        !CharSet::ClosingMark.has(s.last()),
        memory_context::greetings().contains(s),
{
    let list = memory_context::greetings();
    reveal_strlit("hi");
    assert(list[0] == "hi"@);
    reveal_strlit("hey");
    assert(list[1] == "hey"@);
    reveal_strlit("hello");
    assert(list[2] == "hello"@);
    reveal_strlit("howdy");
    assert(list[3] == "howdy"@);
    reveal_strlit("continue");
    assert(list[4] == "continue"@);
    reveal_strlit("start");
    assert(list[5] == "start"@);
    reveal_strlit("begin");
    assert(list[6] == "begin"@);
    reveal_strlit("go");
    assert(list[7] == "go"@);
    reveal_strlit("good morning");
    assert(list[8] == "good morning"@);
    reveal_strlit("good afternoon");
    assert(list[9] == "good afternoon"@);
    reveal_strlit("good evening");
    assert(list[10] == "good evening"@);
    reveal_strlit("what's up");
    assert(list[11] == "what's up"@);
    reveal_strlit("whats up");
    assert(list[12] == "whats up"@);
    reveal_strlit("sup");
    assert(list[13] == "sup"@);
    assert(exists|k: int| 0 <= k < list.len() && list[k] == s);
}

/// Every opener is a greeting, whatever closing marks follow it and whatever
/// white space stands around both.
pub proof fn law_openers_are_greetings(
    before: Seq<char>,
    opener: Seq<char>,
    marks: Seq<char>,
    after: Seq<char>,
)
    requires
        text_facts::all_white(before),
        is_opener(opener),
        all_marks(marks),
        text_facts::all_white(after),
    ensures
        memory_context::is_greeting_text(before + opener + marks + after),
{
    lemma_opener(opener);
    let middle = opener + marks;
    if marks.len() > 0 {
        assert(middle.last() == marks.last());
    } else {
        assert(middle =~= opener);
    }
    assert(before + opener + marks + after =~= before + middle + after);
    text_facts::lemma_trim_is(before, middle, after);
    let n = opener.len() as int;
    assert forall|j: int| n <= j < middle.len() implies CharSet::ClosingMark.has(
        #[trigger] middle[j],
    ) by {
        assert(middle[j] == marks[j - n]);
    }
    assert(middle[n - 1] == opener.last());
    text::lemma_drop_while_is(middle, CharSet::ClosingMark, n);
    assert(middle.take(n) =~= opener);
}

/// A greeting is an opener with closing marks after it and white space around
/// both; nothing else is one.
pub proof fn law_greetings_are_openers(s: Seq<char>) -> (parts: (
    Seq<char>,
    Seq<char>,
    Seq<char>,
    Seq<char>,
))
    requires
        memory_context::is_greeting_text(s),
    ensures
        s == parts.0 + parts.1 + parts.2 + parts.3,
        text_facts::all_white(parts.0),
        is_opener(parts.1),
        all_marks(parts.2),
        text_facts::all_white(parts.3),
{
    let (before, after) = text_facts::lemma_trim(s);
    let t = text::trim(s);
    let n = text_facts::lemma_drop_while(t, CharSet::ClosingMark);
    let opener = t.take(n);
    let marks = t.skip(n);
    assert(t =~= opener + marks);
    assert(s =~= before + opener + marks + after);
    assert forall|k: int| 0 <= k < marks.len() implies (#[trigger] marks[k] == '.' || marks[k]
        == '!' || marks[k] == '?' || marks[k] == ',') by {
        assert(CharSet::ClosingMark.has(t[n + k]));
    }
    let list = memory_context::greetings();
    assert(list[0] == "hi"@);
    assert(list[1] == "hey"@);
    assert(list[2] == "hello"@);
    assert(list[3] == "howdy"@);
    assert(list[4] == "continue"@);
    assert(list[5] == "start"@);
    assert(list[6] == "begin"@);
    assert(list[7] == "go"@);
    assert(list[8] == "good morning"@);
    assert(list[9] == "good afternoon"@);
    assert(list[10] == "good evening"@);
    assert(list[11] == "what's up"@);
    assert(list[12] == "whats up"@);
    assert(list[13] == "sup"@);
    let k = choose|k: int| 0 <= k < list.len() && list[k] == opener;
    assert(is_opener(list[k]));
    (before, opener, marks, after)
}

} // verus!
