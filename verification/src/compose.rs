//! Compositional retrieval and injection.
//!
//! 1. A query is decomposed into the memory kinds that it needs.
//! 2. The best results of each kind are retrieved and merged.
//! 3. They are laid out in sections, with an instruction to compose across
//!    them and to prefer retrieved knowledge over model priors.
//!
//! The searches run against an index outside this crate: [`plan_searches`]
//! says which ones to run, [`compose_typed`] and [`compose_untyped`] take
//! what came back.

use crate::kind;
use crate::kind::MemoryKind;
use crate::promote;
use crate::promote::declares_id_chars;
use crate::text;
use crate::text::{
    append_decimal, contains_any_text, contains_chars, lowercase_chars, to_chars,
};
use vstd::prelude::*;

verus! {

/// Maximum number of results pulled per kind in a compositional search.
pub const PER_KIND_LIMIT: usize = 2;

// ---------------------------------------------------------------------------
// Query decomposition
// ---------------------------------------------------------------------------

/// The kinds that a query can ask for, in their order.
pub open spec fn typed_kinds() -> Seq<MemoryKind> {
    seq![
        MemoryKind::Fact,
        MemoryKind::Decision,
        MemoryKind::Preference,
        MemoryKind::Procedure,
        MemoryKind::Episode,
        MemoryKind::Entity,
    ]
}

/// The phrases that ask for a kind.
pub open spec fn cues(kind: MemoryKind) -> Seq<Seq<char>> {
    match kind {
        MemoryKind::Decision => seq![
            "decision"@,
            "decided"@,
            "why did we"@,
            "why do we"@,
            "chose"@,
            "chosen"@,
            "architecture"@,
            "adr"@,
            "rejected"@,
            "instead of"@,
        ],
        MemoryKind::Procedure => seq![
            "how do we"@,
            "how to"@,
            "how did we"@,
            "runbook"@,
            "procedure"@,
            "steps to"@,
            "debug"@,
            "rebuild"@,
            "workflow"@,
        ],
        MemoryKind::Preference => seq![
            "prefer"@,
            "preference"@,
            "always"@,
            "never "@,
            "habit"@,
            "style"@,
        ],
        MemoryKind::Fact => seq![
            "what is"@,
            "what's"@,
            "fact"@,
            "version"@,
            "which crate"@,
            "where is"@,
            "api"@,
        ],
        MemoryKind::Entity => seq!["who is"@, "who owns"@, "service "@, "ticket"@],
        MemoryKind::Episode => seq![
            "last session"@,
            "yesterday"@,
            "earlier today"@,
            "we discussed"@,
            "last time"@,
        ],
        MemoryKind::Unknown => seq![],
    }
}

/// The phrases that join two questions.
pub open spec fn joining_cues() -> Seq<Seq<char>> {
    seq![
        " and "@,
        " both "@,
        " as well as "@,
        " plus "@,
        "why and how"@,
        "decision and"@,
        "and what"@,
        "and how"@,
    ]
}

/// Whether a query asks for a kind by one of its phrases.
pub open spec fn asks_for(query: Seq<char>, kind: MemoryKind) -> bool {
    text::contains_any(text::lowercase(query), cues(kind))
}

/// Whether a query joins two questions.
pub open spec fn is_joined(query: Seq<char>) -> bool {
    text::contains_any(text::lowercase(query), joining_cues())
}

/// Whether a query asks for `kind` and for no other.
pub open spec fn asks_only_for(query: Seq<char>, kind: MemoryKind) -> bool {
    asks_for(query, kind) && forall|other: MemoryKind|
        other != kind ==> !#[trigger] asks_for(query, other)
}

/// Whether a query asks for no kind.
pub open spec fn asks_for_none(query: Seq<char>) -> bool {
    forall|kind: MemoryKind| !#[trigger] asks_for(query, kind)
}

/// Whether a kind is added because the query joins two questions and the
/// second is not told: a decision goes with a procedure and a procedure or a
/// fact with a decision; where no kind is told, both are added.
pub open spec fn is_added(query: Seq<char>, kind: MemoryKind) -> bool {
    is_joined(query) && match kind {
        MemoryKind::Decision => {
            asks_for_none(query) || asks_only_for(query, MemoryKind::Procedure) || asks_only_for(
                query,
                MemoryKind::Fact,
            )
        },
        MemoryKind::Procedure => asks_for_none(query) || asks_only_for(query, MemoryKind::Decision),
        _ => false,
    }
}

/// Whether a query needs results of a kind.
pub open spec fn needs(query: Seq<char>, kind: MemoryKind) -> bool {
    asks_for(query, kind) || is_added(query, kind)
}

/// The kinds of `kinds` that a query needs, in their order.
pub open spec fn needed(query: Seq<char>, kinds: Seq<MemoryKind>) -> Seq<MemoryKind>
    decreases kinds.len(),
{
    if kinds.len() == 0 {
        seq![]
    } else if needs(query, kinds.last()) {
        needed(query, kinds.drop_last()).push(kinds.last())
    } else {
        needed(query, kinds.drop_last())
    }
}

/// The kinds that a query is decomposed into.
pub open spec fn query_kinds(query: Seq<char>) -> Seq<MemoryKind> {
    needed(query, typed_kinds())
}

/// Whether a text in small letters holds one of the phrases of a kind.
fn asks_for_kind(lower: &[char], kind: MemoryKind) -> (r: bool)
    ensures
        r == text::contains_any(lower@, cues(kind)),
{
    match kind {
        MemoryKind::Decision => {
            let list = [
                "decision",
                "decided",
                "why did we",
                "why do we",
                "chose",
                "chosen",
                "architecture",
                "adr",
                "rejected",
                "instead of",
            ];
            assert(text::str_views(list@) =~= cues(kind));
            contains_any_text(lower, &list)
        },
        MemoryKind::Procedure => {
            let list = [
                "how do we",
                "how to",
                "how did we",
                "runbook",
                "procedure",
                "steps to",
                "debug",
                "rebuild",
                "workflow",
            ];
            assert(text::str_views(list@) =~= cues(kind));
            contains_any_text(lower, &list)
        },
        MemoryKind::Preference => {
            let list = ["prefer", "preference", "always", "never ", "habit", "style"];
            assert(text::str_views(list@) =~= cues(kind));
            contains_any_text(lower, &list)
        },
        MemoryKind::Fact => {
            let list = ["what is", "what's", "fact", "version", "which crate", "where is", "api"];
            assert(text::str_views(list@) =~= cues(kind));
            contains_any_text(lower, &list)
        },
        MemoryKind::Entity => {
            let list = ["who is", "who owns", "service ", "ticket"];
            assert(text::str_views(list@) =~= cues(kind));
            contains_any_text(lower, &list)
        },
        MemoryKind::Episode => {
            let list = ["last session", "yesterday", "earlier today", "we discussed", "last time"];
            assert(text::str_views(list@) =~= cues(kind));
            contains_any_text(lower, &list)
        },
        MemoryKind::Unknown => false,
    }
}

/// Decomposes a query into memory kinds, by rules. The kinds come in their
/// order, each at most once.
///
/// The result is empty where the query has no signal; an untyped search is
/// then in order.
pub fn decompose_query(query: &str) -> (r: Vec<MemoryKind>)
    ensures
        r@ == query_kinds(query@),
{
    let chars = to_chars(query);
    let lower = lowercase_chars(chars.as_slice());
    let q = lower.as_slice();

    let decision = asks_for_kind(q, MemoryKind::Decision);
    let procedure = asks_for_kind(q, MemoryKind::Procedure);
    let preference = asks_for_kind(q, MemoryKind::Preference);
    let fact = asks_for_kind(q, MemoryKind::Fact);
    let entity = asks_for_kind(q, MemoryKind::Entity);
    let episode = asks_for_kind(q, MemoryKind::Episode);
    let list = [
        " and ",
        " both ",
        " as well as ",
        " plus ",
        "why and how",
        "decision and",
        "and what",
        "and how",
    ];
    assert(text::str_views(list@) =~= joining_cues());
    let joined = contains_any_text(q, &list);

    let minor = preference || entity || episode;
    let nothing = !decision && !procedure && !fact && !minor;
    let only_decision = decision && !procedure && !fact && !minor;
    let only_procedure = procedure && !decision && !fact && !minor;
    let only_fact = fact && !decision && !procedure && !minor;
    proof {
        assert(asks_for(query@, MemoryKind::Decision) == decision);
        assert(asks_for(query@, MemoryKind::Procedure) == procedure);
        assert(asks_for(query@, MemoryKind::Preference) == preference);
        assert(asks_for(query@, MemoryKind::Fact) == fact);
        assert(asks_for(query@, MemoryKind::Entity) == entity);
        assert(asks_for(query@, MemoryKind::Episode) == episode);
        assert(asks_for(query@, MemoryKind::Unknown) == false);
        assert(asks_for_none(query@) == nothing);
        assert(asks_only_for(query@, MemoryKind::Decision) == only_decision);
        assert(asks_only_for(query@, MemoryKind::Procedure) == only_procedure);
        assert(asks_only_for(query@, MemoryKind::Fact) == only_fact);
    }

    let mut kinds: Vec<MemoryKind> = Vec::new();
    let ghost all = typed_kinds();
    if fact {
        kinds.push(MemoryKind::Fact);
    }
    if decision || (joined && (nothing || only_procedure || only_fact)) {
        kinds.push(MemoryKind::Decision);
    }
    if preference {
        kinds.push(MemoryKind::Preference);
    }
    if procedure || (joined && (nothing || only_decision)) {
        kinds.push(MemoryKind::Procedure);
    }
    if episode {
        kinds.push(MemoryKind::Episode);
    }
    if entity {
        kinds.push(MemoryKind::Entity);
    }
    proof {
        assert(all.take(6) =~= all);
        assert(all.take(6).drop_last() =~= all.take(5));
        assert(all.take(5).drop_last() =~= all.take(4));
        assert(all.take(4).drop_last() =~= all.take(3));
        assert(all.take(3).drop_last() =~= all.take(2));
        assert(all.take(2).drop_last() =~= all.take(1));
        assert(all.take(1).drop_last() =~= seq![]);
        reveal_with_fuel(needed, 7);
        assert(kinds@ =~= query_kinds(query@));
    }
    kinds
}

/// Whether a query needs results of more than one kind.
pub fn is_compositional_query(query: &str) -> (r: bool)
    ensures
        r == (query_kinds(query@).len() >= 2),
{
    decompose_query(query).len() >= 2
}

// ---------------------------------------------------------------------------
// Search results
// ---------------------------------------------------------------------------

/// One chunk that a search returned.
#[derive(Debug, PartialEq, Eq)]
pub struct SearchResult {
    pub chunk_id: String,
    pub path: String,
    pub start_line: usize,
    pub end_line: usize,
    /// The relevance score, rendered with two decimals.
    pub score: String,
    pub snippet: String,
    pub source: String,
    pub created_at: i64,
    pub kind: MemoryKind,
    pub supersedes: Option<String>,
    pub status: String,
}

/// The mathematical content of a [`SearchResult`].
#[verifier::ext_equal]
pub struct ResultModel {
    pub chunk_id: Seq<char>,
    pub path: Seq<char>,
    pub start_line: usize,
    pub end_line: usize,
    pub score: Seq<char>,
    pub snippet: Seq<char>,
    pub source: Seq<char>,
    pub created_at: i64,
    pub kind: MemoryKind,
    pub supersedes: Option<Seq<char>>,
    pub status: Seq<char>,
}

impl View for SearchResult {
    type V = ResultModel;

    open spec fn view(&self) -> ResultModel {
        ResultModel {
            chunk_id: self.chunk_id@,
            path: self.path@,
            start_line: self.start_line,
            end_line: self.end_line,
            score: self.score@,
            snippet: self.snippet@,
            source: self.source@,
            created_at: self.created_at,
            kind: self.kind,
            supersedes: text::optional(self.supersedes),
            status: self.status@,
        }
    }
}

impl Clone for SearchResult {
    fn clone(&self) -> (r: SearchResult)
        ensures
            r@ == self@,
    {
        let supersedes = match &self.supersedes {
            Some(id) => Some(id.clone()),
            None => None,
        };
        SearchResult {
            chunk_id: self.chunk_id.clone(),
            path: self.path.clone(),
            start_line: self.start_line,
            end_line: self.end_line,
            score: self.score.clone(),
            snippet: self.snippet.clone(),
            source: self.source.clone(),
            created_at: self.created_at,
            kind: self.kind,
            supersedes,
            status: self.status.clone(),
        }
    }
}

/// The models of some results.
pub open spec fn result_views(results: Seq<SearchResult>) -> Seq<ResultModel> {
    Seq::new(results.len(), |i: int| results[i]@)
}

/// The results of a kind, in their order.
pub open spec fn of_kind(results: Seq<ResultModel>, kind: MemoryKind) -> Seq<ResultModel>
    decreases results.len(),
{
    if results.len() == 0 {
        seq![]
    } else if results.last().kind == kind {
        of_kind(results.drop_last(), kind).push(results.last())
    } else {
        of_kind(results.drop_last(), kind)
    }
}

/// Results grouped by kind. Within a group they keep the order in which they
/// were added.
#[derive(Debug, Clone, PartialEq, Eq)]
pub struct KindGroups {
    fact: Vec<SearchResult>,
    decision: Vec<SearchResult>,
    preference: Vec<SearchResult>,
    procedure: Vec<SearchResult>,
    episode: Vec<SearchResult>,
    entity: Vec<SearchResult>,
    unknown: Vec<SearchResult>,
}

impl KindGroups {
    /// The results in the group of a kind.
    pub closed spec fn group(self, kind: MemoryKind) -> Seq<ResultModel> {
        match kind {
            MemoryKind::Fact => result_views(self.fact@),
            MemoryKind::Decision => result_views(self.decision@),
            MemoryKind::Preference => result_views(self.preference@),
            MemoryKind::Procedure => result_views(self.procedure@),
            MemoryKind::Episode => result_views(self.episode@),
            MemoryKind::Entity => result_views(self.entity@),
            MemoryKind::Unknown => result_views(self.unknown@),
        }
    }

    /// Groups without any result.
    pub fn new() -> (r: KindGroups)
        ensures
            forall|kind: MemoryKind| #[trigger] r.group(kind) == Seq::<ResultModel>::empty(),
    {
        let r = KindGroups {
            fact: Vec::new(),
            decision: Vec::new(),
            preference: Vec::new(),
            procedure: Vec::new(),
            episode: Vec::new(),
            entity: Vec::new(),
            unknown: Vec::new(),
        };
        assert forall|kind: MemoryKind| #[trigger]
            r.group(kind) == Seq::<ResultModel>::empty() by {
            assert(r.group(kind) =~= Seq::<ResultModel>::empty());
        }
        r
    }

    /// Adds a result at the end of the group of a kind.
    pub fn push(&mut self, kind: MemoryKind, result: SearchResult)
        ensures
            final(self).group(kind) == old(self).group(kind).push(result@),
            forall|other: MemoryKind|
                other != kind ==> #[trigger] final(self).group(other) == old(self).group(other),
    {
        let ghost before = *self;
        match kind {
            MemoryKind::Fact => self.fact.push(result),
            MemoryKind::Decision => self.decision.push(result),
            MemoryKind::Preference => self.preference.push(result),
            MemoryKind::Procedure => self.procedure.push(result),
            MemoryKind::Episode => self.episode.push(result),
            MemoryKind::Entity => self.entity.push(result),
            MemoryKind::Unknown => self.unknown.push(result),
        }
        assert(self.group(kind) =~= before.group(kind).push(result@));
    }

    /// The results in the group of a kind; nothing where it has none.
    pub fn get(&self, kind: MemoryKind) -> (r: Option<&Vec<SearchResult>>)
        ensures
            match r {
                Some(results) => result_views(results@) == self.group(kind) && results@.len() > 0,
                None => self.group(kind).len() == 0,
            },
    {
        let results = match kind {
            MemoryKind::Fact => &self.fact,
            MemoryKind::Decision => &self.decision,
            MemoryKind::Preference => &self.preference,
            MemoryKind::Procedure => &self.procedure,
            MemoryKind::Episode => &self.episode,
            MemoryKind::Entity => &self.entity,
            MemoryKind::Unknown => &self.unknown,
        };
        if results.len() == 0 {
            None
        } else {
            Some(results)
        }
    }
}

/// Result of compositional retrieval, grouped by kind.
#[derive(Debug, Clone, PartialEq, Eq)]
pub struct CompositionalResults {
    /// Kinds that the query was decomposed into; empty for an untyped search.
    pub requested_kinds: Vec<MemoryKind>,
    /// Results grouped by kind, in the order in which they were found within
    /// each group.
    pub by_kind: KindGroups,
    /// Flat list in section order (for callers that want a single ranking).
    pub flat: Vec<SearchResult>,
}

impl Default for CompositionalResults {
    fn default() -> (r: CompositionalResults)
        ensures
            r.requested_kinds@.len() == 0,
            r.flat@.len() == 0,
            forall|kind: MemoryKind| #[trigger] r.by_kind.group(kind) == Seq::<
                ResultModel,
            >::empty(),
    {
        CompositionalResults {
            requested_kinds: Vec::new(),
            by_kind: KindGroups::new(),
            flat: Vec::new(),
        }
    }
}

impl CompositionalResults {
    /// Whether there is no result.
    pub fn is_empty(&self) -> (r: bool)
        ensures
            r == (self.flat@.len() == 0),
    {
        self.flat.len() == 0
    }

    /// The number of results.
    pub fn len(&self) -> (r: usize)
        ensures
            r == self.flat@.len(),
    {
        self.flat.len()
    }
}

/// Groups results by their own kind.
fn group_by_kind(results: &Vec<SearchResult>) -> (r: KindGroups)
    ensures
        forall|kind: MemoryKind| #[trigger]
            r.group(kind) == of_kind(result_views(results@), kind),
{
    let mut groups = KindGroups::new();
    let ghost models = result_views(results@);
    assert(models.take(0) =~= seq![]);
    for i in 0..results.len()
        invariant
            models == result_views(results@),
            forall|kind: MemoryKind| #[trigger]
                groups.group(kind) == of_kind(models.take(i as int), kind),
    {
        assert(models.take(i + 1).drop_last() =~= models.take(i as int));
        assert(models.take(i + 1).last() == results@[i as int]@);
        groups.push(results[i].kind, results[i].clone());
        assert forall|kind: MemoryKind| #[trigger]
            groups.group(kind) == of_kind(models.take(i + 1), kind) by {}
    }
    assert(models.take(models.len() as int) =~= models);
    groups
}

// ---------------------------------------------------------------------------
// Section order
// ---------------------------------------------------------------------------

/// The kinds in the order of their sections.
pub open spec fn section_order() -> Seq<MemoryKind> {
    seq![
        MemoryKind::Decision,
        MemoryKind::Fact,
        MemoryKind::Procedure,
        MemoryKind::Preference,
        MemoryKind::Entity,
        MemoryKind::Episode,
        MemoryKind::Unknown,
    ]
}

/// The results of the first `n` kinds in section order, one kind after the
/// other.
pub open spec fn by_section(results: Seq<ResultModel>, n: nat) -> Seq<ResultModel>
    decreases n,
{
    if n == 0 {
        seq![]
    } else {
        by_section(results, (n - 1) as nat) + of_kind(results, section_order()[n - 1])
    }
}

/// The results in section order: one kind after the other, and within a kind
/// in their order.
pub open spec fn in_section_order(results: Seq<ResultModel>) -> Seq<ResultModel> {
    by_section(results, section_order().len())
}

/// How many results there are of each kind, in section order.
pub open spec fn section_sizes(results: Seq<ResultModel>) -> Seq<nat> {
    Seq::new(section_order().len(), |j: int| of_kind(results, section_order()[j]).len())
}

/// Whether, of the first `n` sections, the one at `j` is next to get a place:
/// it has results left, and of those that have, it is the first one among
/// those with the fewest places so far.
pub open spec fn is_next(sizes: Seq<nat>, shares: Seq<nat>, n: int, j: int) -> bool {
    &&& 0 <= j < n
    &&& shares[j] < sizes[j]
    &&& forall|k: int|
        0 <= k < n && #[trigger] shares[k] < sizes[k] ==> shares[j] < shares[k] || (shares[j]
            == shares[k] && j <= k)
}

/// Whether one of the first `n` sections has results left.
pub open spec fn has_left(sizes: Seq<nat>, shares: Seq<nat>, n: int) -> bool {
    exists|j: int| 0 <= j < n && #[trigger] shares[j] < sizes[j]
}

/// How many of `places` each section gets, where they are given out one by
/// one: each to the section that is next, as long as one has results left.
pub open spec fn section_shares(sizes: Seq<nat>, places: nat) -> Seq<nat>
    decreases places,
{
    if places == 0 {
        Seq::new(sizes.len(), |j: int| 0nat)
    } else {
        let before = section_shares(sizes, (places - 1) as nat);
        if has_left(sizes, before, sizes.len() as int) {
            let j = choose|j: int| is_next(sizes, before, sizes.len() as int, j);
            before.update(j, before[j] + 1)
        } else {
            before
        }
    }
}

/// The first results of the first `n` kinds in section order, of each kind as
/// many as its share.
pub open spec fn by_share(results: Seq<ResultModel>, shares: Seq<nat>, n: nat) -> Seq<ResultModel>
    decreases n,
{
    if n == 0 {
        seq![]
    } else {
        by_share(results, shares, (n - 1) as nat) + of_kind(results, section_order()[n - 1]).take(
            shares[n - 1] as int,
        )
    }
}

/// At most `max_results` of the results, in section order. The places go
/// round the kinds, so that none is left out while another has two.
pub open spec fn capped(results: Seq<ResultModel>, max_results: nat) -> Seq<ResultModel> {
    by_share(
        results,
        section_shares(section_sizes(results), max_results),
        section_order().len(),
    )
}

/// The models of some counts.
pub open spec fn count_views(v: Seq<usize>) -> Seq<nat> {
    Seq::new(v.len(), |i: int| v[i] as nat)
}

/// The kinds in section order.
fn sections_in_order() -> (r: Vec<MemoryKind>)
    ensures
        r@ == section_order(),
{
    let mut order: Vec<MemoryKind> = Vec::new();
    order.push(MemoryKind::Decision);
    order.push(MemoryKind::Fact);
    order.push(MemoryKind::Procedure);
    order.push(MemoryKind::Preference);
    order.push(MemoryKind::Entity);
    order.push(MemoryKind::Episode);
    order.push(MemoryKind::Unknown);
    assert(order@ =~= section_order());
    order
}

/// How many results there are in each group, in section order.
fn group_sizes(groups: &KindGroups) -> (r: Vec<usize>)
    ensures
        count_views(r@) == Seq::new(
            section_order().len(),
            |j: int| groups.group(section_order()[j]).len(),
        ),
{
    let order = sections_in_order();
    let mut sizes: Vec<usize> = Vec::new();
    for i in 0..order.len()
        invariant
            order@ == section_order(),
            sizes@.len() == i,
            forall|j: int| 0 <= j < i ==> #[trigger] sizes@[j] == groups.group(order@[j]).len(),
    {
        let size = match groups.get(order[i]) {
            Some(results) => results.len(),
            None => 0,
        };
        sizes.push(size);
    }
    assert(count_views(sizes@) =~= Seq::new(
        section_order().len(),
        |j: int| groups.group(section_order()[j]).len(),
    ));
    sizes
}

/// The section that is next to get a place.
fn next_section(sizes: &Vec<usize>, shares: &Vec<usize>) -> (r: Option<usize>)
    requires
        sizes@.len() == shares@.len(),
    ensures
        match r {
            Some(j) => is_next(
                count_views(sizes@),
                count_views(shares@),
                sizes@.len() as int,
                j as int,
            ),
            None => !has_left(count_views(sizes@), count_views(shares@), sizes@.len() as int),
        },
{
    let ghost s = count_views(sizes@);
    let ghost t = count_views(shares@);
    let mut next: Option<usize> = None;
    for i in 0..sizes.len()
        invariant
            sizes@.len() == shares@.len(),
            s == count_views(sizes@),
            t == count_views(shares@),
            match next {
                Some(j) => is_next(s, t, i as int, j as int),
                None => !has_left(s, t, i as int),
            },
    {
        let ghost before = next;
        assert(s[i as int] == sizes@[i as int] && t[i as int] == shares@[i as int]);
        if shares[i] < sizes[i] {
            match next {
                Some(j) => {
                    assert(t[j as int] == shares@[j as int]);
                    if shares[i] < shares[j] {
                        next = Some(i);
                    }
                },
                None => {
                    next = Some(i);
                },
            }
        }
        proof {
            match next {
                Some(j) => {
                    assert forall|k: int|
                        0 <= k < i + 1 && #[trigger] t[k] < s[k] implies t[j as int] < t[k] || (
                    t[j as int] == t[k] && j <= k) by {
                        if before is None && k < i {
                            assert(has_left(s, t, i as int));
                        }
                    }
                },
                None => {
                    if has_left(s, t, i + 1) {
                        let k = choose|k: int| 0 <= k < i + 1 && #[trigger] t[k] < s[k];
                        assert(k < i);
                        assert(has_left(s, t, i as int));
                    }
                },
            }
        }
    }
    next
}

/// No two sections are both next.
pub proof fn lemma_next_is_unique(sizes: Seq<nat>, shares: Seq<nat>, n: int, i: int, j: int)
    requires
        is_next(sizes, shares, n, i),
        is_next(sizes, shares, n, j),
    ensures
        i == j,
{
    assert(shares[i] < sizes[i] && shares[j] < sizes[j]);
}

/// Where no section has results left, more places change nothing.
proof fn lemma_no_more_places(sizes: Seq<nat>, places: nat, more: nat)
    requires
        places <= more,
        !has_left(sizes, section_shares(sizes, places), sizes.len() as int),
    ensures
        section_shares(sizes, more) == section_shares(sizes, places),
    decreases more,
{
    if places < more {
        lemma_no_more_places(sizes, places, (more - 1) as nat);
    }
}

/// Gives out places among sections of these sizes.
fn share_places(sizes: &Vec<usize>, places: usize) -> (r: Vec<usize>)
    ensures
        count_views(r@) == section_shares(count_views(sizes@), places as nat),
{
    let ghost s = count_views(sizes@);
    let mut shares: Vec<usize> = Vec::new();
    for i in 0..sizes.len()
        invariant
            shares@.len() == i,
            forall|j: int| 0 <= j < i ==> #[trigger] shares@[j] == 0,
    {
        shares.push(0);
    }
    assert(count_views(shares@) =~= section_shares(s, 0));
    for i in 0..places
        invariant
            s == count_views(sizes@),
            shares@.len() == sizes@.len(),
            count_views(shares@) == section_shares(s, i as nat),
    {
        let ghost before = count_views(shares@);
        match next_section(sizes, &shares) {
            Some(j) => {
                let ghost n = s.len() as int;
                assert(before[j as int] < s[j as int]);
                assert(has_left(s, before, n));
                let share = shares[j];
                assert(before[j as int] == share && s[j as int] == sizes@[j as int]);
                shares[j] = share + 1;
                proof {
                    let k = choose|k: int| is_next(s, before, n, k);
                    lemma_next_is_unique(s, before, n, j as int, k);
                    assert(count_views(shares@) =~= before.update(k, before[k] + 1));
                }
            },
            None => {
                proof {
                    lemma_no_more_places(s, i as nat, places as nat);
                }
                return shares;
            },
        }
    }
    shares
}

/// Where a section has results left, one is next.
pub proof fn lemma_next_exists(sizes: Seq<nat>, shares: Seq<nat>, n: int)
    requires
        0 <= n,
        has_left(sizes, shares, n),
    ensures
        exists|j: int| is_next(sizes, shares, n, j),
    decreases n,
{
    let m = n - 1;
    if has_left(sizes, shares, m) {
        lemma_next_exists(sizes, shares, m);
        let j = choose|j: int| is_next(sizes, shares, m, j);
        if shares[m] < sizes[m] && shares[m] < shares[j] {
            assert(is_next(sizes, shares, n, m));
        } else {
            assert(is_next(sizes, shares, n, j));
        }
    } else {
        let j = choose|j: int| 0 <= j < n && #[trigger] shares[j] < sizes[j];
        assert(j == m);
        assert forall|k: int| 0 <= k < n && #[trigger] shares[k] < sizes[k] implies k == m by {
            if k < m {
                assert(has_left(sizes, shares, m));
            }
        }
        assert(is_next(sizes, shares, n, m));
    }
}

/// No section gets more places than it has results.
pub proof fn lemma_shares_fit(sizes: Seq<nat>, places: nat)
    ensures
        section_shares(sizes, places).len() == sizes.len(),
        forall|j: int|
            0 <= j < sizes.len() ==> #[trigger] section_shares(sizes, places)[j] <= sizes[j],
    decreases places,
{
    if places > 0 {
        let m = (places - 1) as nat;
        lemma_shares_fit(sizes, m);
        let before = section_shares(sizes, m);
        if has_left(sizes, before, sizes.len() as int) {
            lemma_next_exists(sizes, before, sizes.len() as int);
        }
    }
}

/// Appends the first `n` results of a group.
fn append_first(out: &mut Vec<SearchResult>, groups: &KindGroups, kind: MemoryKind, n: usize)
    requires
        n <= groups.group(kind).len(),
    ensures
        result_views(final(out)@) == result_views(old(out)@) + groups.group(kind).take(n as int),
{
    let ghost before = result_views(out@);
    let ghost models = groups.group(kind);
    assert(before + models.take(0) =~= before);
    if let Some(results) = groups.get(kind) {
        for i in 0..n
            invariant
                models == result_views(results@),
                n <= models.len(),
                result_views(out@) == before + models.take(i as int),
        {
            let ghost so_far = result_views(out@);
            let result = results[i].clone();
            out.push(result);
            assert(models[i as int] == results@[i as int]@);
            assert(result_views(out@) =~= so_far.push(models[i as int]));
            assert(models.take(i + 1) =~= models.take(i as int).push(models[i as int]));
        }
    }
}

/// Puts results in section order.
fn order_by_section(results: &Vec<SearchResult>) -> (r: Vec<SearchResult>)
    ensures
        result_views(r@) == in_section_order(result_views(results@)),
{
    let groups = group_by_kind(results);
    let ghost models = result_views(results@);
    let order = sections_in_order();
    let sizes = group_sizes(&groups);
    assert(sizes@.len() == count_views(sizes@).len());
    let mut out: Vec<SearchResult> = Vec::new();
    assert(result_views(out@) =~= by_section(models, 0));
    for i in 0..order.len()
        invariant
            order@ == section_order(),
            sizes@.len() == order@.len(),
            forall|kind: MemoryKind| #[trigger] groups.group(kind) == of_kind(models, kind),
            count_views(sizes@) == Seq::new(
                section_order().len(),
                |j: int| groups.group(section_order()[j]).len(),
            ),
            result_views(out@) == by_section(models, i as nat),
    {
        let ghost group = of_kind(models, order@[i as int]);
        assert(count_views(sizes@)[i as int] == sizes@[i as int]);
        append_first(&mut out, &groups, order[i], sizes[i]);
        assert(group.take(group.len() as int) =~= group);
    }
    out
}

/// Takes at most `max_results` of the results, in section order.
fn cap_results(results: &Vec<SearchResult>, max_results: usize) -> (r: Vec<SearchResult>)
    ensures
        result_views(r@) == capped(result_views(results@), max_results as nat),
{
    let groups = group_by_kind(results);
    let ghost models = result_views(results@);
    let order = sections_in_order();
    let sizes = group_sizes(&groups);
    assert(count_views(sizes@) =~= section_sizes(models));
    let shares = share_places(&sizes, max_results);
    let ghost counts = section_shares(section_sizes(models), max_results as nat);
    proof {
        lemma_shares_fit(section_sizes(models), max_results as nat);
    }
    let mut out: Vec<SearchResult> = Vec::new();
    assert(result_views(out@) =~= by_share(models, counts, 0));
    for i in 0..order.len()
        invariant
            order@ == section_order(),
            shares@.len() == order@.len(),
            counts == count_views(shares@),
            forall|kind: MemoryKind| #[trigger] groups.group(kind) == of_kind(models, kind),
            forall|j: int|
                0 <= j < counts.len() ==> #[trigger] counts[j] <= section_sizes(models)[j],
            result_views(out@) == by_share(models, counts, i as nat),
    {
        assert(counts[i as int] == shares@[i as int]);
        append_first(&mut out, &groups, order[i], shares[i]);
    }
    out
}

// ---------------------------------------------------------------------------
// Planning and composing searches
// ---------------------------------------------------------------------------

/// What a search is restricted to.
#[derive(Debug, Clone, PartialEq, Eq)]
pub struct SearchFilter {
    /// The kinds that are searched; all where nothing is given.
    pub kinds: Option<Vec<MemoryKind>>,
    /// Whether superseded chunks are left out.
    pub exclude_superseded: bool,
}

/// A search that the index is asked for.
#[derive(Debug, Clone, PartialEq, Eq)]
pub struct SearchRequest {
    pub filter: SearchFilter,
    /// The largest number of results.
    pub max_results: usize,
    /// Whether the floor for scores is lowered, so that kinds with few chunks
    /// still surface.
    pub lower_floor: bool,
}

/// The kinds of a request, as a sequence where they are given.
pub open spec fn request_kinds(request: SearchRequest) -> Option<Seq<MemoryKind>> {
    match request.filter.kinds {
        Some(kinds) => Some(kinds@),
        None => None,
    }
}

/// Whether a request is the search for the best results of one kind.
pub open spec fn is_kind_search(request: SearchRequest, kind: MemoryKind) -> bool {
    &&& request_kinds(request) == Some(seq![kind])
    &&& request.filter.exclude_superseded
    &&& request.max_results == PER_KIND_LIMIT
    &&& request.lower_floor
}

/// Whether a request is the search over all kinds.
pub open spec fn is_untyped_search(request: SearchRequest, max_results: usize) -> bool {
    &&& request_kinds(request) is None
    &&& request.filter.exclude_superseded
    &&& request.max_results == max_results
    &&& !request.lower_floor
}

/// The searches for the kinds that a query was decomposed into: one for each
/// kind, in their order, or a single untyped one where there is no kind.
pub fn plan_searches(requested: &Vec<MemoryKind>, max_results: usize) -> (r: Vec<SearchRequest>)
    ensures
        requested@.len() == 0 ==> r@.len() == 1 && is_untyped_search(r@[0], max_results),
        requested@.len() > 0 ==> r@.len() == requested@.len() && forall|i: int|
            0 <= i < r@.len() ==> is_kind_search(#[trigger] r@[i], requested@[i]),
{
    let mut requests: Vec<SearchRequest> = Vec::new();
    if requested.len() == 0 {
        requests.push(
            SearchRequest {
                filter: SearchFilter { kinds: None, exclude_superseded: true },
                max_results,
                lower_floor: false,
            },
        );
        return requests;
    }
    for i in 0..requested.len()
        invariant
            requests@.len() == i,
            forall|j: int| 0 <= j < i ==> is_kind_search(#[trigger] requests@[j], requested@[j]),
    {
        let mut kinds: Vec<MemoryKind> = Vec::new();
        kinds.push(requested[i]);
        assert(kinds@ =~= seq![requested@[i as int]]);
        requests.push(
            SearchRequest {
                filter: SearchFilter { kinds: Some(kinds), exclude_superseded: true },
                max_results: PER_KIND_LIMIT,
                lower_floor: true,
            },
        );
    }
    requests
}

/// How many candidates are asked of a keyword search that is to give
/// `max_results` results after merging.
pub fn candidate_limit(max_results: usize) -> (r: usize)
    requires
        max_results * 3 <= usize::MAX,
    ensures
        r == max_results * 3,
{
    max_results * 3
}

/// A candidate of a keyword search: the id of its chunk, and what else the
/// index knows of it.
#[derive(Debug, Clone, PartialEq, Eq)]
pub struct Candidate<T> {
    pub chunk_id: String,
    pub hit: T,
}

/// Whether one of the candidates has this chunk id.
pub open spec fn has_candidate<T>(list: Seq<Candidate<T>>, chunk_id: Seq<char>) -> bool {
    exists|k: int| 0 <= k < list.len() && (#[trigger] list[k]).chunk_id@ == chunk_id
}

/// The candidates of `list` whose chunk is not one of `known`.
pub open spec fn new_candidates<T>(known: Seq<Candidate<T>>, list: Seq<Candidate<T>>) -> Seq<
    Candidate<T>,
>
    decreases list.len(),
{
    if list.len() == 0 {
        seq![]
    } else if has_candidate(known, list.last().chunk_id@) {
        new_candidates(known, list.drop_last())
    } else {
        new_candidates(known, list.drop_last()).push(list.last())
    }
}

/// Merges the candidates of a search over all sources with those of a search
/// over the evergreen ones: the latter follow where their chunk is not among
/// the former.
pub fn merge_candidates<T>(all: Vec<Candidate<T>>, evergreen: Vec<Candidate<T>>) -> (r: Vec<
    Candidate<T>,
>)
    ensures
        r@ == all@ + new_candidates(all@, evergreen@),
{
    let ghost known = all@;
    let ghost offered = evergreen@;
    let known_len = all.len();
    let mut merged = all;
    assert(offered.take(0) =~= seq![]);
    assert(merged@ =~= known + new_candidates(known, offered.take(0)));
    for candidate in it: evergreen
        invariant
            it.seq() == offered,
            known_len == known.len(),
            merged@ == known + new_candidates(known, offered.take(it.index())),
    {
        let ghost so_far = offered.take(it.index());
        assert(offered.take(it.index() + 1).drop_last() =~= so_far);
        assert(offered.take(it.index() + 1).last() == candidate);
        let mut seen = false;
        for i in 0..known_len
            invariant
                known_len == known.len(),
                merged@ == known + new_candidates(known, so_far),
                seen == (exists|k: int|
                    0 <= k < i && (#[trigger] known[k]).chunk_id@ == candidate.chunk_id@),
        {
            assert(merged@[i as int] == known[i as int]);
            if merged[i].chunk_id == candidate.chunk_id {
                seen = true;
            }
        }
        if !seen {
            merged.push(candidate);
            assert(merged@ =~= known + new_candidates(known, so_far).push(candidate));
        }
    }
    assert(offered.take(offered.len() as int) =~= offered);
    merged
}

/// What a search for one kind returned.
#[derive(Debug, Clone, PartialEq, Eq)]
pub struct KindBatch {
    pub kind: MemoryKind,
    pub results: Vec<SearchResult>,
}

/// A result with the kind that it was searched for.
#[verifier::ext_equal]
pub struct TaggedModel {
    pub kind: MemoryKind,
    pub result: ResultModel,
}

/// The results of a batch with the kind that was searched for.
pub open spec fn tagged(batch: KindBatch) -> Seq<TaggedModel> {
    Seq::new(
        batch.results@.len(),
        |i: int| TaggedModel { kind: batch.kind, result: batch.results@[i]@ },
    )
}

/// The results of some batches, one batch after the other.
pub open spec fn all_tagged(batches: Seq<KindBatch>) -> Seq<TaggedModel>
    decreases batches.len(),
{
    if batches.len() == 0 {
        seq![]
    } else {
        all_tagged(batches.drop_last()) + tagged(batches.last())
    }
}

/// Whether one of the results has this chunk id.
pub open spec fn has_chunk(results: Seq<ResultModel>, chunk_id: Seq<char>) -> bool {
    exists|k: int| 0 <= k < results.len() && (#[trigger] results[k]).chunk_id == chunk_id
}

/// The results without those whose chunk came before.
pub open spec fn distinct(list: Seq<TaggedModel>) -> Seq<TaggedModel>
    decreases list.len(),
{
    if list.len() == 0 {
        seq![]
    } else {
        let before = distinct(list.drop_last());
        if has_chunk(untagged(before), list.last().result.chunk_id) {
            before
        } else {
            before.push(list.last())
        }
    }
}

/// The results without their tags.
pub open spec fn untagged(list: Seq<TaggedModel>) -> Seq<ResultModel> {
    Seq::new(list.len(), |i: int| list[i].result)
}

/// The results that were searched for as `kind`, in their order.
pub open spec fn tagged_as(list: Seq<TaggedModel>, kind: MemoryKind) -> Seq<ResultModel>
    decreases list.len(),
{
    if list.len() == 0 {
        seq![]
    } else if list.last().kind == kind {
        tagged_as(list.drop_last(), kind).push(list.last().result)
    } else {
        tagged_as(list.drop_last(), kind)
    }
}

/// Whether `id` refers to a result: by a fragment of its chunk id or its
/// path, or by an id that its snippet declares.
pub open spec fn refers_to(id: Seq<char>, result: ResultModel) -> bool {
    ||| text::contains(result.chunk_id, id)
    ||| text::contains(result.path, id)
    ||| text::contains(text::lowercase(result.snippet), "id: "@ + id)
    ||| promote::declares_id(result.snippet, id)
}

/// Whether the result at `j` declares that it supersedes the one at `i`.
pub open spec fn supersedes(results: Seq<ResultModel>, j: int, i: int) -> bool {
    match results[j].supersedes {
        Some(id) => refers_to(id, results[i]),
        None => false,
    }
}

/// Whether another result supersedes the one at `i`.
pub open spec fn is_superseded(results: Seq<ResultModel>, i: int) -> bool {
    exists|j: int| 0 <= j < results.len() && j != i && #[trigger] supersedes(results, j, i)
}

/// The results among the first `n` that no other result supersedes.
pub open spec fn survivors(results: Seq<ResultModel>, n: nat) -> Seq<ResultModel>
    decreases n,
{
    if n == 0 {
        seq![]
    } else if is_superseded(results, n - 1) {
        survivors(results, (n - 1) as nat)
    } else {
        survivors(results, (n - 1) as nat).push(results[n - 1])
    }
}

/// Whether one of the results supersedes something.
pub open spec fn has_superseding(results: Seq<ResultModel>) -> bool {
    exists|j: int| 0 <= j < results.len() && (#[trigger] results[j]).supersedes is Some
}

/// The flat list that typed search results are composed into: each chunk
/// once, without what another result supersedes, capped, and in section order.
pub open spec fn composed_flat(list: Seq<TaggedModel>, max_results: nat) -> Seq<ResultModel> {
    let found = untagged(distinct(list));
    capped(survivors(found, found.len()), max_results)
}

/// Whether the groups are formed anew from the flat list, by the results' own
/// kinds: where a result supersedes something, or the list was capped.
pub open spec fn is_regrouped(list: Seq<TaggedModel>, max_results: nat) -> bool {
    let found = untagged(distinct(list));
    has_superseding(found) || survivors(found, found.len()).len() > max_results
}

/// The group of a kind that typed search results are composed into.
pub open spec fn composed_group(
    list: Seq<TaggedModel>,
    max_results: nat,
    kind: MemoryKind,
) -> Seq<ResultModel> {
    if is_regrouped(list, max_results) {
        of_kind(composed_flat(list, max_results), kind)
    } else {
        tagged_as(distinct(list), kind)
    }
}

/// Whether `id` refers to a result.
fn refers_to_result(id: &str, result: &SearchResult) -> (r: bool)
    ensures
        r == refers_to(id@, result@),
{
    let id_chars = to_chars(id);
    let chunk_id = to_chars(result.chunk_id.as_str());
    if contains_chars(chunk_id.as_slice(), id_chars.as_slice()) {
        return true;
    }
    let path = to_chars(result.path.as_str());
    if contains_chars(path.as_slice(), id_chars.as_slice()) {
        return true;
    }
    let snippet = to_chars(result.snippet.as_str());
    let lower = lowercase_chars(snippet.as_slice());
    let mut field = to_chars("id: ");
    let mut tail = to_chars(id);
    field.append(&mut tail);
    contains_chars(lower.as_slice(), field.as_slice()) || declares_id_chars(
        snippet.as_slice(),
        id_chars.as_slice(),
    )
}

/// Whether another result supersedes the one at `i`.
fn is_superseded_at(results: &Vec<SearchResult>, i: usize) -> (r: bool)
    requires
        i < results@.len(),
    ensures
        r == is_superseded(result_views(results@), i as int),
{
    let ghost models = result_views(results@);
    for j in 0..results.len()
        invariant
            i < results@.len(),
            models == result_views(results@),
            forall|k: int| 0 <= k < j && k != i ==> !#[trigger] supersedes(models, k, i as int),
    {
        assert(models[j as int] == results@[j as int]@);
        assert(models[i as int] == results@[i as int]@);
        if j != i {
            if let Some(id) = &results[j].supersedes {
                if refers_to_result(id.as_str(), &results[i]) {
                    assert(supersedes(models, j as int, i as int));
                    return true;
                }
            }
        }
    }
    false
}

/// Drops the results that another result supersedes, and says whether one of
/// them supersedes anything.
fn apply_supersession(results: &mut CompositionalResults) -> (r: bool)
    ensures
        r == has_superseding(result_views(old(results).flat@)),
        final(results).requested_kinds == old(results).requested_kinds,
        final(results).by_kind == old(results).by_kind,
        result_views(final(results).flat@) == survivors(
            result_views(old(results).flat@),
            old(results).flat@.len(),
        ),
{
    let ghost models = result_views(results.flat@);
    let mut superseding = false;
    for j in 0..results.flat.len()
        invariant
            models == result_views(results.flat@),
            superseding == (exists|k: int|
                0 <= k < j && (#[trigger] models[k]).supersedes is Some),
    {
        assert(models[j as int] == results.flat@[j as int]@);
        if results.flat[j].supersedes.is_some() {
            superseding = true;
        }
    }
    if !superseding {
        proof {
            lemma_nothing_superseded(models, models.len());
        }
        return false;
    }
    let mut kept: Vec<SearchResult> = Vec::new();
    assert(result_views(kept@) =~= survivors(models, 0));
    for i in 0..results.flat.len()
        invariant
            models == result_views(results.flat@),
            result_views(kept@) == survivors(models, i as nat),
    {
        let ghost before = result_views(kept@);
        if !is_superseded_at(&results.flat, i) {
            let result = results.flat[i].clone();
            kept.push(result);
            assert(result_views(kept@) =~= before.push(models[i as int]));
        }
    }
    results.flat = kept;
    true
}

/// Where no result supersedes anything, all survive.
pub proof fn lemma_nothing_superseded(results: Seq<ResultModel>, n: nat)
    requires
        !has_superseding(results),
        n <= results.len(),
    ensures
        survivors(results, n) == results.take(n as int),
    decreases n,
{
    if n > 0 {
        lemma_nothing_superseded(results, (n - 1) as nat);
        assert(results.take(n as int) =~= results.take(n - 1).push(results[n - 1]));
        assert(!is_superseded(results, n - 1)) by {
            if is_superseded(results, n - 1) {
                let j = choose|j: int|
                    0 <= j < results.len() && j != n - 1 && #[trigger] supersedes(
                        results,
                        j,
                        n - 1,
                    );
                assert(results[j].supersedes is Some);
            }
        }
    } else {
        assert(results.take(0) =~= seq![]);
    }
    assert(n == results.len() ==> results.take(n as int) =~= results);
}

/// Composes what an untyped search returned.
pub fn compose_untyped(results: Vec<SearchResult>) -> (r: CompositionalResults)
    ensures
        r.requested_kinds@.len() == 0,
        result_views(r.flat@) == in_section_order(result_views(results@)),
        forall|kind: MemoryKind| #[trigger]
            r.by_kind.group(kind) == of_kind(result_views(results@), kind),
{
    let by_kind = group_by_kind(&results);
    let flat = order_by_section(&results);
    CompositionalResults { requested_kinds: Vec::new(), by_kind, flat }
}

/// Composes what the searches for the requested kinds returned, in their
/// order: each chunk is kept once, chunks that another one supersedes are
/// dropped, and the whole is capped at `max_results` while it keeps the
/// diversity of kinds.
pub fn compose_typed(batches: &Vec<KindBatch>, max_results: usize) -> (r: CompositionalResults)
    ensures
        r.requested_kinds@ == Seq::new(batches@.len(), |i: int| batches@[i].kind),
        result_views(r.flat@) == composed_flat(all_tagged(batches@), max_results as nat),
        forall|kind: MemoryKind| #[trigger]
            r.by_kind.group(kind) == composed_group(
                all_tagged(batches@),
                max_results as nat,
                kind,
            ),
{
    let mut out = CompositionalResults::default();
    let ghost mut seen: Seq<TaggedModel> = seq![];
    assert(batches@.take(0) =~= seq![]);
    assert(result_views(out.flat@) =~= untagged(seen));
    assert(out.requested_kinds@ =~= Seq::new(0, |i: int| batches@[i].kind));
    for b in 0..batches.len()
        invariant
            seen == distinct(all_tagged(batches@.take(b as int))),
            out.requested_kinds@ == Seq::new(b as nat, |i: int| batches@[i].kind),
            result_views(out.flat@) == untagged(seen),
            forall|kind: MemoryKind| #[trigger]
                out.by_kind.group(kind) == tagged_as(seen, kind),
    {
        let batch = &batches[b];
        let ghost earlier = all_tagged(batches@.take(b as int));
        let ghost here = tagged(*batch);
        out.requested_kinds.push(batch.kind);
        assert(out.requested_kinds@ =~= Seq::new((b + 1) as nat, |i: int| batches@[i].kind));
        assert(here.take(0) =~= seq![]);
        assert(earlier + here.take(0) =~= earlier);
        for i in 0..batch.results.len()
            invariant
                b < batches@.len(),
                *batch == batches@[b as int],
                here == tagged(*batch),
                seen == distinct(earlier + here.take(i as int)),
                out.requested_kinds@ == Seq::new((b + 1) as nat, |i: int| batches@[i].kind),
                result_views(out.flat@) == untagged(seen),
                forall|kind: MemoryKind| #[trigger]
                    out.by_kind.group(kind) == tagged_as(seen, kind),
        {
            let result = &batch.results[i];
            let ghost next = here[i as int];
            assert((earlier + here.take(i + 1)).drop_last() =~= earlier + here.take(i as int));
            assert((earlier + here.take(i + 1)).last() == next);
            if !has_chunk_id(&out.flat, result.chunk_id.as_str()) {
                let ghost flat = result_views(out.flat@);
                out.by_kind.push(batch.kind, result.clone());
                out.flat.push(result.clone());
                proof {
                    let before = seen;
                    seen = seen.push(next);
                    assert(seen.drop_last() =~= before);
                    assert(result_views(out.flat@) =~= flat.push(result@));
                    assert(untagged(seen) =~= untagged(before).push(next.result));
                }
            }
        }
        assert(here.take(here.len() as int) =~= here);
        assert(batches@.take(b + 1).drop_last() =~= batches@.take(b as int));
    }
    assert(batches@.take(batches@.len() as int) =~= batches@);

    let superseding = apply_supersession(&mut out);
    let over = out.flat.len() > max_results;
    out.flat = cap_results(&out.flat, max_results);
    if superseding || over {
        out.by_kind = group_by_kind(&out.flat);
    }
    out
}

/// Whether one of the results has this chunk id.
fn has_chunk_id(results: &Vec<SearchResult>, chunk_id: &str) -> (r: bool)
    ensures
        r == has_chunk(result_views(results@), chunk_id@),
{
    let id = to_chars(chunk_id);
    let ghost models = result_views(results@);
    for i in 0..results.len()
        invariant
            id@ == chunk_id@,
            models == result_views(results@),
            forall|k: int| 0 <= k < i ==> (#[trigger] models[k]).chunk_id != chunk_id@,
    {
        let other = to_chars(results[i].chunk_id.as_str());
        assert(models[i as int] == results@[i as int]@);
        if text::same_chars(other.as_slice(), id.as_slice()) {
            return true;
        }
    }
    false
}

// ---------------------------------------------------------------------------
// Query embeddings
// ---------------------------------------------------------------------------

/// Whether the embedding of a query is asked for: vectors can be searched,
/// and something can compute them.
pub fn should_embed(vec_available: bool, has_provider: bool) -> (r: bool)
    ensures
        r == (vec_available && has_provider),
{
    vec_available && has_provider
}

/// The embedding of a query, given what the provider returned for it: the
/// first one. Without one, or after a failure, the search goes by keywords
/// only.
pub fn query_embedding<T, E>(outcome: Result<Vec<T>, E>) -> (r: Option<T>)
    ensures
        r == match outcome {
            Ok(embeddings) => if embeddings@.len() > 0 {
                Some(embeddings@[0])
            } else {
                None
            },
            Err(_) => None,
        },
{
    match outcome {
        Ok(mut embeddings) => {
            if embeddings.len() > 0 {
                Some(embeddings.swap_remove(0))
            } else {
                None
            }
        },
        Err(_) => None,
    }
}

// ---------------------------------------------------------------------------
// Injection
// ---------------------------------------------------------------------------

/// The opening of an injection: its title, and the instruction to compose.
pub open spec fn composition_intro() -> Seq<char> {
    "## Relevant Memory from Past Sessions\n\nPrefer retrieved knowledge over model priors when they conflict. Compose across sections when the question needs more than one kind of knowledge.\n\n"@
}

/// What is noted of a status other than `active`.
pub open spec fn status_note(status: Seq<char>) -> Seq<char> {
    if status == "active"@ {
        seq![]
    } else {
        ", status: "@ + status
    }
}

/// The `n`-th result of a section.
pub open spec fn result_text(n: nat, r: ResultModel) -> Seq<char> {
    text::decimal(n) + ". (score: "@ + r.score + ", source: "@ + r.source + status_note(r.status)
        + ", kind: "@ + kind::kind_name(r.kind) + ")\n**File:** "@ + r.path + " (lines "@
        + text::decimal(r.start_line as nat) + "-"@ + text::decimal(r.end_line as nat)
        + ")\n```\n"@ + r.snippet + "\n```\n\n"@
}

/// The results of a section, numbered from one.
pub open spec fn results_text(results: Seq<ResultModel>) -> Seq<char>
    decreases results.len(),
{
    if results.len() == 0 {
        seq![]
    } else {
        results_text(results.drop_last()) + result_text(results.len(), results.last())
    }
}

/// The section of a kind; nothing where there is no result.
pub open spec fn section_text(kind: MemoryKind, results: Seq<ResultModel>) -> Seq<char> {
    if results.len() == 0 {
        seq![]
    } else {
        "### "@ + kind::kind_section_heading(kind) + "\n\n"@ + results_text(results)
    }
}

/// The sections of some kinds, in their order.
pub open spec fn kind_sections(groups: KindGroups, kinds: Seq<MemoryKind>) -> Seq<char>
    decreases kinds.len(),
{
    if kinds.len() == 0 {
        seq![]
    } else {
        kind_sections(groups, kinds.drop_last()) + section_text(
            kinds.last(),
            groups.group(kinds.last()),
        )
    }
}

/// Formats the `n`-th result of a section.
fn format_result(n: usize, r: &SearchResult) -> (out: String)
    ensures
        out@ == result_text(n as nat, r@),
{
    let mut out = String::new();
    append_decimal(&mut out, n);
    assert(out@ =~= text::decimal(n as nat));
    out.append(". (score: ");
    out.append(r.score.as_str());
    out.append(", source: ");
    out.append(r.source.as_str());
    let ghost head = out@;
    let status = to_chars(r.status.as_str());
    if !text::is_text(status.as_slice(), "active") {
        out.append(", status: ");
        out.append(r.status.as_str());
    }
    assert(out@ =~= head + status_note(r.status@));
    out.append(", kind: ");
    out.append(r.kind.as_str());
    out.append(")\n**File:** ");
    out.append(r.path.as_str());
    out.append(" (lines ");
    append_decimal(&mut out, r.start_line);
    out.append("-");
    append_decimal(&mut out, r.end_line);
    out.append(")\n```\n");
    out.append(r.snippet.as_str());
    out.append("\n```\n\n");
    out
}

/// Appends the section of a kind.
fn append_section(out: &mut String, kind: MemoryKind, groups: &KindGroups)
    ensures
        final(out)@ == old(out)@ + section_text(kind, groups.group(kind)),
{
    let ghost before = out@;
    if let Some(results) = groups.get(kind) {
        out.append("### ");
        out.append(kind.section_title());
        out.append("\n\n");
        let ghost head = out@;
        let ghost models = groups.group(kind);
        assert(models.take(0) =~= seq![]);
        assert(out@ =~= head + results_text(models.take(0)));
        for i in 0..results.len()
            invariant
                models == result_views(results@),
                out@ == head + results_text(models.take(i as int)),
        {
            let ghost so_far = out@;
            assert(models.take(i + 1).drop_last() =~= models.take(i as int));
            let entry = format_result(i + 1, &results[i]);
            out.append(entry.as_str());
            assert(out@ == so_far + result_text((i + 1) as nat, models[i as int]));
            assert(out@ =~= head + results_text(models.take(i + 1)));
        }
        assert(models.take(models.len() as int) =~= models);
        assert(out@ =~= before + section_text(kind, models));
    } else {
        assert(out@ =~= before + section_text(kind, groups.group(kind)));
    }
}

/// Formats compositional results as a block that can be injected: sectioned
/// by kind, with the instruction to compose across sections and to prefer
/// retrieved knowledge over priors. Nothing where there is no result.
pub fn format_compositional_injection(results: &CompositionalResults) -> (r: Option<String>)
    ensures
        match r {
            Some(out) => results.flat@.len() > 0 && out@ == composition_intro() + kind_sections(
                results.by_kind,
                section_order(),
            ),
            None => results.flat@.len() == 0,
        },
{
    if results.is_empty() {
        return None;
    }
    let mut out =
        "## Relevant Memory from Past Sessions\n\nPrefer retrieved knowledge over model priors when they conflict. Compose across sections when the question needs more than one kind of knowledge.\n\n".to_owned();
    let order = sections_in_order();
    let ghost kinds = section_order();
    assert(kinds.take(0) =~= seq![]);
    assert(out@ =~= composition_intro() + kind_sections(results.by_kind, kinds.take(0)));
    for i in 0..order.len()
        invariant
            order@ == kinds,
            out@ == composition_intro() + kind_sections(results.by_kind, kinds.take(i as int)),
    {
        let ghost so_far = out@;
        assert(kinds.take(i + 1).drop_last() =~= kinds.take(i as int));
        append_section(&mut out, order[i], &results.by_kind);
        assert(out@ =~= composition_intro() + kind_sections(results.by_kind, kinds.take(i + 1)));
    }
    assert(kinds.take(kinds.len() as int) =~= kinds);
    Some(out)
}

} // verus!
