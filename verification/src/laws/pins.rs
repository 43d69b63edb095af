//! What the core pins of a text are.

use crate::kind;
use crate::kind::MemoryKind;
use crate::laws::layout;
use crate::promote;
use crate::promote::{CorePinSection, PinModel};
use crate::sections;
use crate::sections::SectionModel;
use crate::text;
use crate::text::CharSet;
use crate::text_facts;
use vstd::prelude::*;

verus! {

/// Whether pins come in the order of their priorities.
pub open spec fn is_ordered(pins: Seq<PinModel>, order: Seq<MemoryKind>) -> bool {
    forall|i: int, j: int|
        0 <= i < j < pins.len() ==> promote::priority_of(order, (#[trigger] pins[i]).kind)
            <= promote::priority_of(order, (#[trigger] pins[j]).kind)
}

/// Whether `pin` is the pin of a section of `all` that may be pinned.
pub open spec fn is_pin_of(
    pin: PinModel,
    all: Seq<SectionModel>,
    order: Seq<MemoryKind>,
) -> bool {
    exists|k: int|
        0 <= k < all.len() && promote::is_pinnable(#[trigger] all[k], order) && pin
            == promote::pin_of(all[k])
}

/// The candidates are the pins of the sections that may be pinned.
proof fn lemma_candidates(all: Seq<SectionModel>, order: Seq<MemoryKind>)
    ensures
        forall|k: int|
            0 <= k < promote::candidates(all, order).len() ==> is_pin_of(
                #[trigger] promote::candidates(all, order)[k],
                all,
                order,
            ),
        forall|j: int|
            0 <= j < all.len() && promote::is_pinnable(#[trigger] all[j], order)
                ==> promote::candidates(all, order).contains(promote::pin_of(all[j])),
    decreases all.len(),
{
    let pins = promote::candidates(all, order);
    if all.len() > 0 {
        let init = all.drop_last();
        let before = promote::candidates(init, order);
        lemma_candidates(init, order);
        assert forall|k: int| 0 <= k < pins.len() implies is_pin_of(
            #[trigger] pins[k],
            all,
            order,
        ) by {
            if k < before.len() {
                assert(pins[k] == before[k]);
                let j = choose|j: int|
                    0 <= j < init.len() && promote::is_pinnable(#[trigger] init[j], order)
                        && pins[k] == promote::pin_of(init[j]);
                assert(all[j] == init[j]);
            } else {
                assert(all[all.len() - 1] == all.last());
            }
        }
        assert forall|j: int|
            0 <= j < all.len() && promote::is_pinnable(#[trigger] all[j], order) implies pins.contains(
        promote::pin_of(all[j])) by {
            if j < init.len() {
                assert(all[j] == init[j]);
                let k = choose|k: int|
                    0 <= k < before.len() && before[k] == promote::pin_of(init[j]);
                assert(pins[k] == before[k]);
            } else {
                assert(pins[pins.len() - 1] == promote::pin_of(all[j]));
            }
        }
    }
}

/// The pins of one priority are those that have it.
proof fn lemma_at_priority(pins: Seq<PinModel>, order: Seq<MemoryKind>, p: nat)
    ensures
        forall|k: int|
            0 <= k < promote::at_priority(pins, order, p).len() ==> promote::priority_of(
                order,
                (#[trigger] promote::at_priority(pins, order, p)[k]).kind,
            ) == p && pins.contains(promote::at_priority(pins, order, p)[k]),
        forall|j: int|
            0 <= j < pins.len() && promote::priority_of(order, (#[trigger] pins[j]).kind) == p
                ==> promote::at_priority(pins, order, p).contains(pins[j]),
    decreases pins.len(),
{
    let out = promote::at_priority(pins, order, p);
    if pins.len() > 0 {
        let init = pins.drop_last();
        let before = promote::at_priority(init, order, p);
        lemma_at_priority(init, order, p);
        assert forall|k: int| 0 <= k < out.len() implies promote::priority_of(
            order,
            (#[trigger] out[k]).kind,
        ) == p && pins.contains(out[k]) by {
            if k < before.len() {
                assert(out[k] == before[k]);
                let j = choose|j: int| 0 <= j < init.len() && init[j] == before[k];
                assert(pins[j] == out[k]);
            } else {
                assert(pins[pins.len() - 1] == out[k]);
            }
        }
        assert forall|j: int|
            0 <= j < pins.len() && promote::priority_of(order, (#[trigger] pins[j]).kind)
                == p implies out.contains(pins[j]) by {
            if j < init.len() {
                assert(pins[j] == init[j]);
                let k = choose|k: int| 0 <= k < before.len() && before[k] == init[j];
                assert(out[k] == before[k]);
            } else {
                assert(out[out.len() - 1] == pins[j]);
            }
        }
    }
}

/// The pins by priority are ordered, and they are the same pins.
proof fn lemma_by_priority(pins: Seq<PinModel>, order: Seq<MemoryKind>, n: nat)
    ensures
        is_ordered(promote::by_priority(pins, order, n), order),
        forall|k: int|
            0 <= k < promote::by_priority(pins, order, n).len() ==> promote::priority_of(
                order,
                (#[trigger] promote::by_priority(pins, order, n)[k]).kind,
            ) < n && pins.contains(promote::by_priority(pins, order, n)[k]),
        forall|j: int|
            0 <= j < pins.len() && promote::priority_of(order, (#[trigger] pins[j]).kind) < n
                ==> promote::by_priority(pins, order, n).contains(pins[j]),
    decreases n,
{
    if n > 0 {
        let m = (n - 1) as nat;
        let front = promote::by_priority(pins, order, m);
        let back = promote::at_priority(pins, order, m);
        let out = promote::by_priority(pins, order, n);
        lemma_by_priority(pins, order, m);
        lemma_at_priority(pins, order, m);
        assert forall|k: int| 0 <= k < out.len() implies promote::priority_of(
            order,
            (#[trigger] out[k]).kind,
        ) < n && pins.contains(out[k]) by {
            if k < front.len() {
                assert(out[k] == front[k]);
            } else {
                assert(out[k] == back[k - front.len()]);
            }
        }
        assert forall|i: int, j: int| 0 <= i < j < out.len() implies promote::priority_of(
            order,
            (#[trigger] out[i]).kind,
        ) <= promote::priority_of(order, (#[trigger] out[j]).kind) by {
            if j < front.len() {
                assert(out[i] == front[i] && out[j] == front[j]);
            } else {
                assert(out[j] == back[j - front.len()]);
                if i < front.len() {
                    assert(out[i] == front[i]);
                } else {
                    assert(out[i] == back[i - front.len()]);
                }
            }
        }
        assert forall|j: int|
            0 <= j < pins.len() && promote::priority_of(order, (#[trigger] pins[j]).kind)
                < n implies out.contains(pins[j]) by {
            if promote::priority_of(order, pins[j].kind) < m {
                let k = choose|k: int| 0 <= k < front.len() && front[k] == pins[j];
                assert(out[k] == front[k]);
            } else {
                let k = choose|k: int| 0 <= k < back.len() && back[k] == pins[j];
                assert(out[front.len() + k] == back[k]);
            }
        }
    }
}

/// The pins that are taken keep within the limits, in the order in which they
/// were offered.
proof fn lemma_taken(
    pins: Seq<PinModel>,
    order: Seq<MemoryKind>,
    max_chars: nat,
    max_sections: nat,
)
    requires
        is_ordered(pins, order),
    ensures
        ({
            let out = promote::taken(pins, max_chars, max_sections);
            &&& out.len() <= max_sections
            &&& out.len() >= 2 ==> promote::total_len(out) <= max_chars
            &&& is_ordered(out, order)
            &&& forall|k: int| 0 <= k < out.len() ==> pins.contains(#[trigger] out[k])
            &&& out.len() == 0 && max_sections > 0 ==> forall|k: int|
                0 <= k < pins.len() ==> (#[trigger] pins[k]).text.len() == 0
        }),
    decreases pins.len(),
{
    if pins.len() > 0 {
        let init = pins.drop_last();
        assert(is_ordered(init, order)) by {
            assert forall|i: int, j: int| 0 <= i < j < init.len() implies promote::priority_of(
                order,
                (#[trigger] init[i]).kind,
            ) <= promote::priority_of(order, (#[trigger] init[j]).kind) by {
                assert(init[i] == pins[i] && init[j] == pins[j]);
            }
        }
        lemma_taken(init, order, max_chars, max_sections);
        let before = promote::taken(init, max_chars, max_sections);
        let out = promote::taken(pins, max_chars, max_sections);
        assert forall|k: int| 0 <= k < before.len() implies exists|j: int|
            0 <= j < pins.len() - 1 && #[trigger] before[k] == #[trigger] pins[j] by {
            let j = choose|j: int| 0 <= j < init.len() && init[j] == before[k];
            assert(pins[j] == init[j]);
        }
        assert forall|k: int| 0 <= k < out.len() implies pins.contains(#[trigger] out[k]) by {
            if k < before.len() {
                assert(out[k] == before[k]);
            } else {
                assert(out[k] == pins[pins.len() - 1]);
            }
        }
        if out.len() > before.len() {
            assert(out.drop_last() =~= before);
            assert forall|i: int, j: int| 0 <= i < j < out.len() implies promote::priority_of(
                order,
                (#[trigger] out[i]).kind,
            ) <= promote::priority_of(order, (#[trigger] out[j]).kind) by {
                assert(out[i] == before[i]);
                if j < before.len() {
                    assert(out[j] == before[j]);
                } else {
                    assert(out[j] == pins[pins.len() - 1]);
                }
            }
        }
        if out.len() == 0 && max_sections > 0 {
            assert forall|k: int| 0 <= k < pins.len() implies (#[trigger] pins[k]).text.len()
                == 0 by {
                if k < init.len() {
                    assert(pins[k] == init[k]);
                }
            }
        }
    }
}

/// The text of a pin is not empty.
proof fn lemma_pin_text(section: SectionModel)
    ensures
        promote::pin_of(section).text.len() > 0,
{
    reveal_strlit("## ");
    let source = promote::pin_source(section);
    assert(source[0] == '#');
    text_facts::lemma_blank(source);
}

/// Core pins keep within their limits: they are at most `max_sections`, and
/// more than one of them take at most `max_chars` characters. Each is a
/// section of the text that is not superseded and whose kind is to be pinned,
/// and kinds of a higher priority come first. Where some section may be pinned
/// and the limit allows one at all, there is a pin.
pub proof fn law_core_pins(
    markdown: Seq<char>,
    order: Seq<MemoryKind>,
    max_chars: nat,
    max_sections: nat,
)
    ensures
        ({
            let all = sections::markdown_sections(markdown);
            let pins = promote::core_pins(markdown, order, max_chars, max_sections);
            &&& pins.len() <= max_sections
            &&& pins.len() >= 2 ==> promote::total_len(pins) <= max_chars
            &&& is_ordered(pins, order)
            &&& forall|k: int| 0 <= k < pins.len() ==> is_pin_of(#[trigger] pins[k], all, order)
            &&& max_sections > 0 && (exists|k: int|
                0 <= k < all.len() && promote::is_pinnable(#[trigger] all[k], order)) ==> pins.len()
                > 0
        }),
{
    let all = sections::markdown_sections(markdown);
    let offered = promote::candidates(all, order);
    let ordered = promote::by_priority(offered, order, order.len());
    let pins = promote::core_pins(markdown, order, max_chars, max_sections);
    lemma_candidates(all, order);
    lemma_by_priority(offered, order, order.len());
    lemma_taken(ordered, order, max_chars, max_sections);
    assert forall|k: int| 0 <= k < pins.len() implies is_pin_of(#[trigger] pins[k], all, order) by {
        assert(ordered.contains(pins[k]));
        let j = choose|j: int| 0 <= j < ordered.len() && ordered[j] == pins[k];
        assert(offered.contains(ordered[j]));
        let i = choose|i: int| 0 <= i < offered.len() && offered[i] == ordered[j];
        assert(is_pin_of(offered[i], all, order));
    }
    if max_sections > 0 && exists|k: int|
        0 <= k < all.len() && promote::is_pinnable(#[trigger] all[k], order) {
        let k = choose|k: int| 0 <= k < all.len() && promote::is_pinnable(#[trigger] all[k], order);
        let pin = promote::pin_of(all[k]);
        assert(offered.contains(pin));
        let i = choose|i: int| 0 <= i < offered.len() && offered[i] == pin;
        assert(ordered.contains(offered[i]));
        let j = choose|j: int| 0 <= j < ordered.len() && ordered[j] == pin;
        lemma_pin_text(all[k]);
        assert(ordered[j].text.len() > 0);
    }
}

// ---------------------------------------------------------------------------
// What may be pinned, and what a pin shows
// ---------------------------------------------------------------------------

/// The number of a priority is the first place of the kind in the order.
pub proof fn law_priority(order: Seq<MemoryKind>, kind: MemoryKind)
    ensures
        promote::priority_of(order, kind) <= order.len(),
        promote::priority_of(order, kind) < order.len() <==> order.contains(kind),
        promote::priority_of(order, kind) < order.len() ==> order[promote::priority_of(
            order,
            kind,
        ) as int] == kind,
        forall|i: int|
            0 <= i < promote::priority_of(order, kind) ==> #[trigger] order[i] != kind,
    decreases order.len(),
{
    if order.len() > 0 && order[0] != kind {
        let rest = order.skip(1);
        law_priority(rest, kind);
        let p = promote::priority_of(order, kind) as int;
        assert forall|i: int| 0 <= i < p implies #[trigger] order[i] != kind by {
            if i > 0 {
                assert(order[i] == rest[i - 1]);
            }
        }
        if rest.contains(kind) {
            assert(order[p] == rest[p - 1]);
        }
        if order.contains(kind) {
            let i = choose|i: int| 0 <= i < order.len() && order[i] == kind;
            assert(rest[i - 1] == kind);
        }
    } else if order.len() > 0 {
        assert(order.contains(order[0]));
    }
}

/// What a section says as it is pinned: a heading of the second level with its
/// title, and its body.
pub open spec fn shown_section(s: SectionModel) -> Seq<char> {
    "## "@ + text::trim(text::skip_while(s.heading, CharSet::Only('#'))) + "\n"@ + s.body
}

/// A section may be pinned exactly where it is active and its kind is one of
/// those to be pinned.
pub proof fn law_pinnable(s: SectionModel, order: Seq<MemoryKind>)
    ensures
        ({
            let meta = kind::classification(shown_section(s), "workspace"@);
            promote::is_pinnable(s, order) <==> meta.status == "active"@ && order.contains(
                meta.kind,
            )
        }),
{
    lemma_shown_section(s);
    let meta = kind::classification(shown_section(s), "workspace"@);
    law_priority(order, meta.kind);
    kind::lemma_status_of(kind::scanned(shown_section(s)));
    reveal_strlit("active");
    reveal_strlit("superseded");
    assert("active"@.len() != "superseded"@.len());
}

proof fn lemma_shown_section(s: SectionModel)
    ensures
        promote::pin_source(s) == shown_section(s),
{
    reveal_strlit("\n");
    assert(promote::pin_source(s) =~= shown_section(s));
}

/// A pin shows all of its section: the title without its number signs, and the
/// heading and the body without white space around them. Its kind is the one
/// that these give.
pub proof fn law_pin_shows_its_section(s: SectionModel)
    ensures
        ({
            let pin = promote::pin_of(s);
            &&& pin.title == text::trim(text::skip_while(s.heading, CharSet::Only('#')))
            &&& pin.text == text::trim(shown_section(s))
            &&& pin.kind == kind::classification(shown_section(s), "workspace"@).kind
        }),
{
    lemma_shown_section(s);
}

// ---------------------------------------------------------------------------
// Which pins are taken
// ---------------------------------------------------------------------------

/// The number of characters of some pins.
pub open spec fn characters(pins: Seq<PinModel>) -> nat
    decreases pins.len(),
{
    if pins.len() == 0 {
        0
    } else {
        pins[0].text.len() + characters(pins.skip(1))
    }
}

/// One more pin at the end.
proof fn lemma_characters_push(pins: Seq<PinModel>, pin: PinModel)
    ensures
        characters(pins.push(pin)) == characters(pins) + pin.text.len(),
    decreases pins.len(),
{
    let more = pins.push(pin);
    if pins.len() == 0 {
        assert(more.skip(1) =~= seq![]);
        assert(characters(more.skip(1)) == 0);
    } else {
        lemma_characters_push(pins.skip(1), pin);
        assert(more.skip(1) =~= pins.skip(1).push(pin));
    }
}

/// The length of some pins is the number of their characters.
proof fn lemma_characters(pins: Seq<PinModel>)
    ensures
        promote::total_len(pins) == characters(pins),
    decreases pins.len(),
{
    if pins.len() > 0 {
        lemma_characters(pins.drop_last());
        lemma_characters_push(pins.drop_last(), pins.last());
        assert(pins.drop_last().push(pins.last()) =~= pins);
    }
}

/// Whether the caps leave no room for a pin after the first `m` of `pins`:
/// there are as many as there may be, or the pin does not fit with them.
pub open spec fn no_room(
    pins: Seq<PinModel>,
    m: int,
    pin: PinModel,
    max_chars: nat,
    max_sections: nat,
) -> bool {
    m >= max_sections || (m > 0 && characters(pins.take(m)) + pin.text.len() > max_chars)
}

/// Whether the first `m` of `pins` come before a pin of this priority, and the
/// others after it.
pub open spec fn is_place(
    pins: Seq<PinModel>,
    m: int,
    order: Seq<MemoryKind>,
    priority: nat,
) -> bool {
    &&& 0 <= m <= pins.len()
    &&& forall|i: int|
        0 <= i < m ==> promote::priority_of(order, (#[trigger] pins[i]).kind) <= priority
    &&& forall|i: int|
        m <= i < pins.len() ==> promote::priority_of(order, (#[trigger] pins[i]).kind) >= priority
}

/// A pin that is offered and not taken found no room when it was its turn.
proof fn lemma_left_out(
    pins: Seq<PinModel>,
    order: Seq<MemoryKind>,
    max_chars: nat,
    max_sections: nat,
    i: int,
) -> (m: int)
    requires
        is_ordered(pins, order),
        0 <= i < pins.len(),
        pins[i].text.len() > 0,
        !promote::taken(pins, max_chars, max_sections).contains(pins[i]),
    ensures
        is_place(
            promote::taken(pins, max_chars, max_sections),
            m,
            order,
            promote::priority_of(order, pins[i].kind),
        ),
        no_room(
            promote::taken(pins, max_chars, max_sections),
            m,
            pins[i],
            max_chars,
            max_sections,
        ),
    decreases pins.len(),
{
    let init = pins.drop_last();
    let last = pins.last();
    let out = promote::taken(pins, max_chars, max_sections);
    let before = promote::taken(init, max_chars, max_sections);
    assert(is_ordered(init, order)) by {
        assert forall|a: int, b: int| 0 <= a < b < init.len() implies promote::priority_of(
            order,
            (#[trigger] init[a]).kind,
        ) <= promote::priority_of(order, (#[trigger] init[b]).kind) by {
            assert(init[a] == pins[a] && init[b] == pins[b]);
        }
    }
    if i == pins.len() - 1 {
        if promote::fits(before, last, max_chars, max_sections) {
            assert(out[before.len() as int] == pins[i]);
        }
        lemma_taken(init, order, max_chars, max_sections);
        lemma_characters(before);
        assert(out.take(out.len() as int) =~= out);
        let m = out.len() as int;
        assert forall|k: int| 0 <= k < m implies promote::priority_of(
            order,
            (#[trigger] out[k]).kind,
        ) <= promote::priority_of(order, pins[i].kind) by {
            assert(init.contains(out[k]));
            let j = choose|j: int| 0 <= j < init.len() && init[j] == out[k];
            assert(pins[j] == init[j]);
        }
        m
    } else {
        assert(init[i] == pins[i]);
        assert(!before.contains(init[i])) by {
            if before.contains(init[i]) {
                let k = choose|k: int| 0 <= k < before.len() && before[k] == init[i];
                assert(out[k] == pins[i]);
            }
        }
        let m = lemma_left_out(init, order, max_chars, max_sections, i);
        assert(out.take(m) =~= before.take(m));
        let p = promote::priority_of(order, pins[i].kind);
        assert forall|k: int| 0 <= k < m implies promote::priority_of(
            order,
            (#[trigger] out[k]).kind,
        ) <= p by {
            assert(out[k] == before[k]);
        }
        assert forall|k: int| m <= k < out.len() implies promote::priority_of(
            order,
            (#[trigger] out[k]).kind,
        ) >= p by {
            if k < before.len() {
                assert(out[k] == before[k]);
            } else {
                assert(out[k] == pins[pins.len() - 1]);
            }
        }
        m
    }
}

/// A section that may be pinned is pinned, unless the pins that come before it
/// leave no room: there are already as many as there may be, or its text does
/// not fit with theirs.
pub proof fn law_core_pins_are_maximal(
    markdown: Seq<char>,
    order: Seq<MemoryKind>,
    max_chars: nat,
    max_sections: nat,
    k: int,
)
    requires
        0 <= k < sections::markdown_sections(markdown).len(),
        promote::is_pinnable(sections::markdown_sections(markdown)[k], order),
    ensures
        ({
            let pin = promote::pin_of(sections::markdown_sections(markdown)[k]);
            let pins = promote::core_pins(markdown, order, max_chars, max_sections);
            pins.contains(pin) || exists|m: int|
                #![trigger pins.take(m)]
                is_place(pins, m, order, promote::priority_of(order, pin.kind)) && no_room(
                    pins,
                    m,
                    pin,
                    max_chars,
                    max_sections,
                )
        }),
{
    let all = sections::markdown_sections(markdown);
    let pin = promote::pin_of(all[k]);
    let offered = promote::candidates(all, order);
    let ordered = promote::by_priority(offered, order, order.len());
    let pins = promote::core_pins(markdown, order, max_chars, max_sections);
    lemma_candidates(all, order);
    lemma_by_priority(offered, order, order.len());
    lemma_pin_text(all[k]);
    assert(offered.contains(pin));
    let i = choose|i: int| 0 <= i < offered.len() && offered[i] == pin;
    assert(ordered.contains(offered[i]));
    let j = choose|j: int| 0 <= j < ordered.len() && ordered[j] == pin;
    if !pins.contains(pin) {
        let m = lemma_left_out(ordered, order, max_chars, max_sections, j);
        assert(pins.take(m) == pins.take(m));
    }
}

/// The number of characters of the sections that may be pinned.
pub open spec fn pinnable_characters(all: Seq<SectionModel>, order: Seq<MemoryKind>) -> nat
    decreases all.len(),
{
    if all.len() == 0 {
        0
    } else {
        pinnable_characters(all.drop_last(), order) + (if promote::is_pinnable(all.last(), order) {
            text::trim(shown_section(all.last())).len()
        } else {
            0
        })
    }
}

/// The number of the sections that may be pinned.
pub open spec fn pinnable_count(all: Seq<SectionModel>, order: Seq<MemoryKind>) -> nat
    decreases all.len(),
{
    if all.len() == 0 {
        0
    } else {
        pinnable_count(all.drop_last(), order) + (if promote::is_pinnable(all.last(), order) {
            1nat
        } else {
            0nat
        })
    }
}

/// The candidates are as many, and as long, as what may be pinned.
proof fn lemma_candidates_size(all: Seq<SectionModel>, order: Seq<MemoryKind>)
    ensures
        promote::candidates(all, order).len() == pinnable_count(all, order),
        characters(promote::candidates(all, order)) == pinnable_characters(all, order),
    decreases all.len(),
{
    if all.len() > 0 {
        lemma_candidates_size(all.drop_last(), order);
        lemma_shown_section(all.last());
        lemma_characters_push(
            promote::candidates(all.drop_last(), order),
            promote::pin_of(all.last()),
        );
    }
}

/// Pins of one priority, and the rest of them.
proof fn lemma_at_priority_size(pins: Seq<PinModel>, order: Seq<MemoryKind>, n: nat)
    requires
        forall|k: int|
            0 <= k < pins.len() ==> promote::priority_of(order, (#[trigger] pins[k]).kind) < n,
    ensures
        promote::by_priority(pins, order, n).len() == pins.len(),
        characters(promote::by_priority(pins, order, n)) == characters(pins),
    decreases pins.len(),
{
    if pins.len() == 0 {
        lemma_by_priority_empty(pins, order, n);
    } else {
        let init = pins.drop_last();
        let last = pins.last();
        assert forall|k: int| 0 <= k < init.len() implies promote::priority_of(
            order,
            (#[trigger] init[k]).kind,
        ) < n by {
            assert(init[k] == pins[k]);
        }
        lemma_at_priority_size(init, order, n);
        assert(promote::priority_of(order, pins[pins.len() - 1].kind) < n);
        lemma_by_priority_push(init, last, order, n);
        lemma_characters_push(init, last);
        assert(init.push(last) =~= pins);
    }
}

proof fn lemma_by_priority_empty(pins: Seq<PinModel>, order: Seq<MemoryKind>, n: nat)
    requires
        pins.len() == 0,
    ensures
        promote::by_priority(pins, order, n).len() == 0,
        characters(promote::by_priority(pins, order, n)) == 0,
    decreases n,
{
    if n > 0 {
        lemma_by_priority_empty(pins, order, (n - 1) as nat);
    }
}

/// One more pin among those of the first `n` priorities.
proof fn lemma_by_priority_push(
    pins: Seq<PinModel>,
    pin: PinModel,
    order: Seq<MemoryKind>,
    n: nat,
)
    ensures
        ({
            let p = promote::priority_of(order, pin.kind);
            let before = promote::by_priority(pins, order, n);
            let after = promote::by_priority(pins.push(pin), order, n);
            &&& after.len() == before.len() + (if p < n {
                1nat
            } else {
                0nat
            })
            &&& characters(after) == characters(before) + (if p < n {
                pin.text.len()
            } else {
                0
            })
        }),
    decreases n,
{
    if n > 0 {
        let m = (n - 1) as nat;
        lemma_by_priority_push(pins, pin, order, m);
        assert(pins.push(pin).drop_last() =~= pins);
        let a = promote::at_priority(pins, order, m);
        let b = promote::at_priority(pins.push(pin), order, m);
        lemma_characters_add(promote::by_priority(pins, order, m), a);
        lemma_characters_add(promote::by_priority(pins.push(pin), order, m), b);
        if promote::priority_of(order, pin.kind) == m {
            assert(b == a.push(pin));
            lemma_characters_push(a, pin);
        } else {
            assert(b == a);
        }
    }
}

/// Characters of pins that stand one after the other.
proof fn lemma_characters_add(a: Seq<PinModel>, b: Seq<PinModel>)
    ensures
        characters(a + b) == characters(a) + characters(b),
    decreases b.len(),
{
    if b.len() == 0 {
        assert(a + b =~= a);
    } else {
        lemma_characters_add(a, b.drop_last());
        lemma_characters_push(a + b.drop_last(), b.last());
        lemma_characters_push(b.drop_last(), b.last());
        assert((a + b.drop_last()).push(b.last()) =~= a + b);
        assert(b.drop_last().push(b.last()) =~= b);
    }
}

/// Where the caps have room for all that is offered, all of it is taken.
proof fn lemma_all_taken(pins: Seq<PinModel>, max_chars: nat, max_sections: nat)
    requires
        pins.len() <= max_sections,
        characters(pins) <= max_chars,
        forall|k: int| 0 <= k < pins.len() ==> (#[trigger] pins[k]).text.len() > 0,
    ensures
        promote::taken(pins, max_chars, max_sections) == pins,
    decreases pins.len(),
{
    if pins.len() > 0 {
        let init = pins.drop_last();
        lemma_characters_push(init, pins.last());
        assert(init.push(pins.last()) =~= pins);
        assert forall|k: int| 0 <= k < init.len() implies (#[trigger] init[k]).text.len() > 0 by {
            assert(init[k] == pins[k]);
        }
        lemma_all_taken(init, max_chars, max_sections);
        lemma_characters(init);
        assert(pins[pins.len() - 1].text.len() > 0);
    } else {
        assert(promote::taken(pins, max_chars, max_sections) =~= pins);
    }
}

/// Where the caps have room for all that may be pinned, all of it is pinned,
/// and each section once.
pub proof fn law_all_is_pinned_where_there_is_room(
    markdown: Seq<char>,
    order: Seq<MemoryKind>,
    max_chars: nat,
    max_sections: nat,
)
    requires
        pinnable_count(sections::markdown_sections(markdown), order) <= max_sections,
        pinnable_characters(sections::markdown_sections(markdown), order) <= max_chars,
    ensures
        ({
            let all = sections::markdown_sections(markdown);
            let pins = promote::core_pins(markdown, order, max_chars, max_sections);
            &&& pins.len() == pinnable_count(all, order)
            &&& forall|k: int|
                0 <= k < all.len() && promote::is_pinnable(#[trigger] all[k], order)
                    ==> pins.contains(promote::pin_of(all[k]))
        }),
{
    let all = sections::markdown_sections(markdown);
    let offered = promote::candidates(all, order);
    let ordered = promote::by_priority(offered, order, order.len());
    lemma_candidates(all, order);
    lemma_candidates_size(all, order);
    lemma_by_priority(offered, order, order.len());
    assert forall|k: int| 0 <= k < offered.len() implies promote::priority_of(
        order,
        (#[trigger] offered[k]).kind,
    ) < order.len() && offered[k].text.len() > 0 by {
        assert(is_pin_of(offered[k], all, order));
        let j = choose|j: int|
            0 <= j < all.len() && promote::is_pinnable(#[trigger] all[j], order) && offered[k]
                == promote::pin_of(all[j]);
        lemma_pin_text(all[j]);
    }
    lemma_at_priority_size(offered, order, order.len());
    assert forall|k: int| 0 <= k < ordered.len() implies (#[trigger] ordered[k]).text.len() > 0 by {
        assert(offered.contains(ordered[k]));
    }
    lemma_all_taken(ordered, max_chars, max_sections);
    assert forall|k: int|
        0 <= k < all.len() && promote::is_pinnable(#[trigger] all[k], order) implies ordered.contains(
    promote::pin_of(all[k])) by {
        assert(offered.contains(promote::pin_of(all[k])));
        let i = choose|i: int| 0 <= i < offered.len() && offered[i] == promote::pin_of(all[k]);
        assert(ordered.contains(offered[i]));
    }
}

/// Core pins keep within the character budget: only a single pin may exceed
/// it.
pub proof fn law_core_pins_keep_the_budget(
    markdown: Seq<char>,
    order: Seq<MemoryKind>,
    max_chars: nat,
    max_sections: nat,
)
    ensures
        ({
            let pins = promote::core_pins(markdown, order, max_chars, max_sections);
            pins.len() <= max_sections && (pins.len() <= 1 || characters(pins) <= max_chars)
        }),
{
    law_core_pins(markdown, order, max_chars, max_sections);
    lemma_characters(promote::core_pins(markdown, order, max_chars, max_sections));
}

// ---------------------------------------------------------------------------
// The order of pins
// ---------------------------------------------------------------------------

/// Whether two values stand in a list, the first before the second.
pub open spec fn in_order(list: Seq<PinModel>, a: PinModel, b: PinModel) -> bool {
    exists|x: int, y: int|
        0 <= x < y < list.len() && #[trigger] list[x] == a && #[trigger] list[y] == b
}

/// Whether `a` and `b` are the pins of two sections that may be pinned, the
/// first of which stands before the second.
pub open spec fn in_text_order(
    all: Seq<SectionModel>,
    order: Seq<MemoryKind>,
    a: PinModel,
    b: PinModel,
) -> bool {
    exists|x: int, y: int|
        0 <= x < y < all.len() && promote::is_pinnable(#[trigger] all[x], order)
            && promote::is_pinnable(#[trigger] all[y], order) && promote::pin_of(all[x]) == a
            && promote::pin_of(all[y]) == b
}

proof fn lemma_candidates_order(all: Seq<SectionModel>, order: Seq<MemoryKind>, i: int, j: int)
    requires
        0 <= i < j < promote::candidates(all, order).len(),
    ensures
        in_text_order(
            all,
            order,
            promote::candidates(all, order)[i],
            promote::candidates(all, order)[j],
        ),
    decreases all.len(),
{
    let init = all.drop_last();
    let before = promote::candidates(init, order);
    let out = promote::candidates(all, order);
    if j < before.len() {
        lemma_candidates_order(init, order, i, j);
        assert(out[i] == before[i] && out[j] == before[j]);
        let (x, y) = choose|x: int, y: int|
            0 <= x < y < init.len() && promote::is_pinnable(#[trigger] init[x], order)
                && promote::is_pinnable(#[trigger] init[y], order) && promote::pin_of(init[x])
                == before[i] && promote::pin_of(init[y]) == before[j];
        assert(all[x] == init[x] && all[y] == init[y]);
    } else {
        lemma_candidates(init, order);
        assert(out[i] == before[i]);
        assert(is_pin_of(before[i], init, order));
        let x = choose|x: int|
            0 <= x < init.len() && promote::is_pinnable(#[trigger] init[x], order) && before[i]
                == promote::pin_of(init[x]);
        assert(all[x] == init[x]);
        assert(all[all.len() - 1] == all.last());
    }
}

proof fn lemma_at_priority_order(
    pins: Seq<PinModel>,
    order: Seq<MemoryKind>,
    p: nat,
    i: int,
    j: int,
)
    requires
        0 <= i < j < promote::at_priority(pins, order, p).len(),
    ensures
        in_order(
            pins,
            promote::at_priority(pins, order, p)[i],
            promote::at_priority(pins, order, p)[j],
        ),
    decreases pins.len(),
{
    let init = pins.drop_last();
    let before = promote::at_priority(init, order, p);
    let out = promote::at_priority(pins, order, p);
    if j < before.len() {
        lemma_at_priority_order(init, order, p, i, j);
        assert(out[i] == before[i] && out[j] == before[j]);
        let (x, y) = choose|x: int, y: int|
            0 <= x < y < init.len() && #[trigger] init[x] == before[i] && #[trigger] init[y]
                == before[j];
        assert(pins[x] == init[x] && pins[y] == init[y]);
    } else {
        lemma_at_priority(init, order, p);
        assert(out[i] == before[i]);
        assert(init.contains(before[i]));
        let x = choose|x: int| 0 <= x < init.len() && init[x] == before[i];
        assert(pins[x] == init[x]);
        assert(pins[pins.len() - 1] == out[j]);
    }
}

proof fn lemma_by_priority_order(
    pins: Seq<PinModel>,
    order: Seq<MemoryKind>,
    n: nat,
    i: int,
    j: int,
)
    requires
        0 <= i < j < promote::by_priority(pins, order, n).len(),
        promote::priority_of(order, promote::by_priority(pins, order, n)[i].kind)
            == promote::priority_of(order, promote::by_priority(pins, order, n)[j].kind),
    ensures
        in_order(
            pins,
            promote::by_priority(pins, order, n)[i],
            promote::by_priority(pins, order, n)[j],
        ),
    decreases n,
{
    let m = (n - 1) as nat;
    let front = promote::by_priority(pins, order, m);
    let back = promote::at_priority(pins, order, m);
    let out = promote::by_priority(pins, order, n);
    if j < front.len() {
        assert(out[i] == front[i] && out[j] == front[j]);
        lemma_by_priority_order(pins, order, m, i, j);
    } else if i >= front.len() {
        let a = i - front.len();
        let b = j - front.len();
        assert(out[i] == back[a] && out[j] == back[b]);
        lemma_at_priority_order(pins, order, m, a, b);
    } else {
        lemma_by_priority(pins, order, m);
        lemma_at_priority(pins, order, m);
        assert(out[i] == front[i]);
        assert(out[j] == back[j - front.len()]);
    }
}

proof fn lemma_taken_order(
    pins: Seq<PinModel>,
    order: Seq<MemoryKind>,
    max_chars: nat,
    max_sections: nat,
    i: int,
    j: int,
)
    requires
        is_ordered(pins, order),
        0 <= i < j < promote::taken(pins, max_chars, max_sections).len(),
    ensures
        in_order(
            pins,
            promote::taken(pins, max_chars, max_sections)[i],
            promote::taken(pins, max_chars, max_sections)[j],
        ),
    decreases pins.len(),
{
    let init = pins.drop_last();
    let before = promote::taken(init, max_chars, max_sections);
    let out = promote::taken(pins, max_chars, max_sections);
    assert(is_ordered(init, order)) by {
        assert forall|a: int, b: int| 0 <= a < b < init.len() implies promote::priority_of(
            order,
            (#[trigger] init[a]).kind,
        ) <= promote::priority_of(order, (#[trigger] init[b]).kind) by {
            assert(init[a] == pins[a] && init[b] == pins[b]);
        }
    }
    assert(out[i] == before[i]);
    if j < before.len() {
        lemma_taken_order(init, order, max_chars, max_sections, i, j);
        assert(out[j] == before[j]);
        let (x, y) = choose|x: int, y: int|
            0 <= x < y < init.len() && #[trigger] init[x] == before[i] && #[trigger] init[y]
                == before[j];
        assert(pins[x] == init[x] && pins[y] == init[y]);
    } else {
        lemma_taken(init, order, max_chars, max_sections);
        assert(init.contains(before[i]));
        let x = choose|x: int| 0 <= x < init.len() && init[x] == before[i];
        assert(pins[x] == init[x]);
        assert(pins[pins.len() - 1] == out[j]);
    }
}

/// Core pins come by the priority of their kinds. Those of one kind come in
/// the order in which their sections stand in the text, and no section is
/// pinned twice.
pub proof fn law_order_of_core_pins(
    markdown: Seq<char>,
    order: Seq<MemoryKind>,
    max_chars: nat,
    max_sections: nat,
    i: int,
    j: int,
)
    requires
        0 <= i < j < promote::core_pins(markdown, order, max_chars, max_sections).len(),
    ensures
        ({
            let all = sections::markdown_sections(markdown);
            let pins = promote::core_pins(markdown, order, max_chars, max_sections);
            let p = promote::priority_of(order, pins[i].kind);
            let q = promote::priority_of(order, pins[j].kind);
            &&& p < q || pins[i].kind == pins[j].kind
            &&& pins[i].kind == pins[j].kind ==> in_text_order(all, order, pins[i], pins[j])
        }),
{
    let all = sections::markdown_sections(markdown);
    let offered = promote::candidates(all, order);
    let ordered = promote::by_priority(offered, order, order.len());
    let pins = promote::core_pins(markdown, order, max_chars, max_sections);
    lemma_by_priority(offered, order, order.len());
    lemma_taken(ordered, order, max_chars, max_sections);
    lemma_taken_order(ordered, order, max_chars, max_sections, i, j);
    let (x, y) = choose|x: int, y: int|
        0 <= x < y < ordered.len() && #[trigger] ordered[x] == pins[i] && #[trigger] ordered[y]
            == pins[j];
    law_priority(order, pins[i].kind);
    law_priority(order, pins[j].kind);
    assert(promote::priority_of(order, ordered[x].kind) < order.len());
    assert(promote::priority_of(order, ordered[y].kind) < order.len());
    if pins[i].kind == pins[j].kind {
        lemma_by_priority_order(offered, order, order.len(), x, y);
        let (a, b) = choose|a: int, b: int|
            0 <= a < b < offered.len() && #[trigger] offered[a] == ordered[x]
                && #[trigger] offered[b] == ordered[y];
        lemma_candidates_order(all, order, a, b);
    }
}

/// The core pins of two files are those of the global one and, below it, the
/// workspace one, where a blank or missing file counts for nothing.
pub proof fn law_evergreen(global: Option<Seq<char>>, workspace: Option<Seq<char>>)
    ensures
        ({
            let g = match global {
                Some(s) => if text::is_blank(s) {
                    seq![]
                } else {
                    s
                },
                None => seq![],
            };
            let w = match workspace {
                Some(s) => if text::is_blank(s) {
                    seq![]
                } else {
                    s
                },
                None => seq![],
            };
            promote::evergreen(global, workspace) == (if g.len() == 0 {
                w
            } else if w.len() == 0 {
                g
            } else {
                g + "\n\n"@ + w
            })
        }),
{
    text_facts::lemma_blank(Seq::<char>::empty());
}

// ---------------------------------------------------------------------------
// Injection
// ---------------------------------------------------------------------------

/// The text of a pin as it is injected: with a line feed at its end, and an
/// empty line after it.
pub open spec fn injected_pin(text: Seq<char>) -> Seq<char> {
    if text.len() > 0 && text.last() == '\n' {
        text + "\n"@
    } else {
        text + "\n\n"@
    }
}

proof fn lemma_injected_pins(pins: Seq<PinModel>)
    ensures
        promote::pin_texts(pins) == layout::concat(
            Seq::new(pins.len(), |k: int| injected_pin(pins[k].text)),
        ),
    decreases pins.len(),
{
    reveal_strlit("\n");
    reveal_strlit("\n\n");
    let parts = Seq::new(pins.len(), |k: int| injected_pin(pins[k].text));
    if pins.len() > 0 {
        let init = pins.drop_last();
        lemma_injected_pins(init);
        assert(parts.drop_last() =~= Seq::new(init.len(), |k: int| injected_pin(init[k].text)));
        assert(promote::closed_line(pins.last().text).push('\n') =~= injected_pin(
            pins.last().text,
        ));
    }
}

/// The injection of core pins: its title, what they are, and their texts in
/// their order.
pub proof fn law_pin_injection(pins: Seq<PinModel>)
    ensures
        promote::core_pin_intro() + promote::pin_texts(pins)
            == "## Soft-Internal Core (always on)\n\nThese are high-priority preferences and active decisions. Prefer them over model priors. They do not expire with session logs.\n\n"@
            + layout::concat(Seq::new(pins.len(), |k: int| injected_pin(pins[k].text))),
{
    lemma_injected_pins(pins);
}

/// Pins as they are modelled, one by one, and the usual limits.
pub proof fn law_pin_model(pin: CorePinSection, pins: Seq<CorePinSection>)
    ensures
        promote::pin_views(pins).len() == pins.len(),
        forall|i: int|
            0 <= i < pins.len() ==> #[trigger] promote::pin_views(pins)[i] == pins[i]@,
        pin@.kind == pin.kind,
        pin@.title == pin.title@,
        pin@.text == pin.text@,
        promote::DEFAULT_CORE_PIN_MAX_CHARS == 2000,
        promote::DEFAULT_CORE_PIN_MAX_SECTIONS == 8,
{
}

} // verus!
