//! The field `id:` of a text, and the lines of a text as parts of it.

use crate::promote;
use crate::text;
use crate::text_facts;
use vstd::prelude::*;

verus! {

/// Whether a line is `id:` and, after white space, this id.
pub open spec fn is_id_field(line: Seq<char>, id: Seq<char>) -> bool {
    exists|value: Seq<char>|
        text::trim(line) == #[trigger] ("id:"@ + value) && text::trim(value) == id
}

/// Whether one of the lines of a text is the field `id:` with this id.
pub open spec fn has_id_field(s: Seq<char>, id: Seq<char>) -> bool {
    exists|k: int| 0 <= k < text::lines(s).len() && is_id_field(#[trigger] text::lines(s)[k], id)
}

/// The two ways to say that a line declares an id.
pub proof fn lemma_id_field(line: Seq<char>, id: Seq<char>)
    ensures
        promote::is_id_line(line, id) == is_id_field(line, id),
{
    reveal_strlit("id:");
    let t = text::trim(line);
    if promote::is_id_line(line, id) {
        let value = t.skip(3);
        assert(t =~= t.take(3) + value);
        assert(t == "id:"@ + value);
    }
    if is_id_field(line, id) {
        let value = choose|value: Seq<char>|
            t == #[trigger] ("id:"@ + value) && text::trim(value) == id;
        assert(t.take(3) =~= "id:"@);
        assert(t.skip(3) =~= value);
    }
}

/// A text declares an id exactly where one of its lines is the field with it.
pub proof fn law_declared_id(s: Seq<char>, id: Seq<char>)
    ensures
        promote::declares_id(s, id) <==> has_id_field(s, id),
{
    let ls = text::lines(s);
    if promote::declares_id(s, id) {
        let k = choose|k: int| 0 <= k < ls.len() && promote::is_id_line(#[trigger] ls[k], id);
        lemma_id_field(ls[k], id);
    }
    if has_id_field(s, id) {
        let k = choose|k: int| 0 <= k < ls.len() && is_id_field(#[trigger] ls[k], id);
        lemma_id_field(ls[k], id);
    }
}

/// The field `id: {id}` declares the id, and a text with such a line does.
pub proof fn law_id_line_declares(s: Seq<char>, id: Seq<char>, k: int)
    requires
        0 <= k < text::lines(s).len(),
        text::trim(text::lines(s)[k]) == "id: "@ + id,
        text::trim(id) == id,
    ensures
        promote::declares_id(s, id),
{
    reveal_strlit("id:");
    reveal_strlit("id: ");
    let space = seq![' '];
    let value = space + id;
    assert("id: "@ + id =~= "id:"@ + value);
    text_facts::lemma_trim_padded(space, id, seq![]);
    assert(space + id + Seq::<char>::empty() =~= value);
    assert(is_id_field(text::lines(s)[k], id));
    law_declared_id(s, id);
}

} // verus!
