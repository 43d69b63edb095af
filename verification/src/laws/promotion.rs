//! What a promotion does to the evergreen files.

use crate::promote;
use crate::promote::{ActionModel, EntryModel, MemoryScope};
use vstd::prelude::*;

verus! {

/// The contents of the two evergreen files.
#[verifier::ext_equal]
pub struct Files {
    pub global: Seq<char>,
    pub workspace: Seq<char>,
}

impl Files {
    /// The content of the file of a scope.
    pub open spec fn of(self, scope: MemoryScope) -> Seq<char> {
        match scope {
            MemoryScope::Global => self.global,
            MemoryScope::Workspace => self.workspace,
        }
    }

    /// The files, with another content in the one of a scope.
    pub open spec fn with(self, scope: MemoryScope, content: Seq<char>) -> Files {
        match scope {
            MemoryScope::Global => Files { global: content, ..self },
            MemoryScope::Workspace => Files { workspace: content, ..self },
        }
    }

    /// The files after one action.
    pub open spec fn after(self, action: ActionModel) -> Files {
        match action {
            ActionModel::Rewrite { scope, content } => self.with(scope, content),
            ActionModel::Append { scope, text } => self.with(scope, self.of(scope) + text),
        }
    }

    /// The files after some actions, one after the other.
    pub open spec fn after_all(self, actions: Seq<ActionModel>) -> Files
        decreases actions.len(),
    {
        if actions.len() == 0 {
            self
        } else {
            self.after_all(actions.drop_last()).after(actions.last())
        }
    }
}

/// The scope of an action.
pub open spec fn scope_of(action: ActionModel) -> MemoryScope {
    match action {
        ActionModel::Rewrite { scope, .. } => scope,
        ActionModel::Append { scope, .. } => scope,
    }
}

/// A promotion touches the file that it is for and no other, and the entry is
/// the last thing that it writes.
pub proof fn law_promotion_keeps_to_its_scope(
    scope: MemoryScope,
    entry: EntryModel,
    existing: Option<Seq<char>>,
)
    ensures
        ({
            let actions = promote::promotion(scope, entry, existing);
            &&& actions.len() > 0
            &&& forall|i: int| 0 <= i < actions.len() ==> scope_of(#[trigger] actions[i]) == scope
            &&& actions.last() == (ActionModel::Append { scope, text: promote::entry_text(entry) })
            &&& forall|i: int|
                0 <= i < actions.len() - 1 ==> (#[trigger] actions[i]) is Rewrite
        }),
{
}

/// After a promotion the file of its scope is its content, with what the entry
/// supersedes marked where it is there, followed by the entry. The other file
/// is unchanged.
pub proof fn law_promotion_of_files(files: Files, scope: MemoryScope, entry: EntryModel)
    ensures
        ({
            let before = files.of(scope);
            let after = files.after_all(promote::promotion(scope, entry, Some(before)));
            &&& forall|other: MemoryScope|
                other != scope ==> #[trigger] after.of(other) == files.of(other)
            &&& entry.supersedes is None ==> after.of(scope) == before + promote::entry_text(entry)
            &&& entry.supersedes matches Some(old) ==> match promote::superseded_markdown(
                before,
                old,
            ) {
                Some(marked) => after.of(scope) == marked + promote::entry_text(entry),
                None => after.of(scope) == before + promote::entry_text(entry),
            }
        }),
{
    let before = files.of(scope);
    let actions = promote::promotion(scope, entry, Some(before));
    reveal_with_fuel(Files::after_all, 3);
    let rewritten = match entry.supersedes {
        Some(old) => promote::superseded_markdown(before, old),
        None => None,
    };
    match rewritten {
        Some(marked) => {
            assert(actions.drop_last() =~= seq![actions[0]]);
            assert(actions.drop_last().drop_last() =~= seq![]);
            assert(files.after_all(actions.drop_last().drop_last()) == files);
        },
        None => {
            assert(actions.drop_last() =~= seq![]);
            assert(files.after_all(actions.drop_last()) == files);
        },
    }
}

/// Where the file is missing or cannot be read, nothing is marked: the entry is
/// appended.
pub proof fn law_promotion_without_file(scope: MemoryScope, entry: EntryModel)
    ensures
        promote::promotion(scope, entry, None) == seq![
            ActionModel::Append { scope, text: promote::entry_text(entry) },
        ],
{
}

} // verus!
