//! The drive trash: whether a name is in it, and emptying an entry of it
//! on the user's word.

use vstd::prelude::*;
use crate::query::{GdriveQuery, has_query_fields, spec_unwrap_gdrive_query, unwrap_gdrive_query};
use crate::text::words;

verus! {

/// The first entry of the trash listing (the output of
/// `gdrive list -q "trashed = true"`) named `search_string`, or `""`.
pub fn gdrive_trash_query(trash_listing: String, search_string: &String) -> (r: String)
    ensures
        r@ == spec_unwrap_gdrive_query(trash_listing@, search_string@),
{
    unwrap_gdrive_query(trash_listing, search_string)
}

/// Whether the trash listing holds an entry named `search_string`.
pub fn is_trashed(trash_listing: String, search_string: &String) -> (r: bool)
    ensures
        r == (spec_unwrap_gdrive_query(trash_listing@, search_string@).len() > 0),
{
    let trash_query = gdrive_trash_query(trash_listing, search_string);
    !trash_query.as_str().is_empty()
}

/// Whether the trash listing holds no entry named `search_string`.
pub fn is_not_trashed(trash_listing: String, search_string: &String) -> (r: bool)
    ensures
        r == (spec_unwrap_gdrive_query(trash_listing@, search_string@).len() == 0),
{
    !is_trashed(trash_listing, search_string)
}

/// Whether to ask the user about deleting a trashed entry: only when one
/// was found (`trash_query` not empty) and asking was requested.
pub fn prompts_for_deletion(trash_query: &String, prompt: bool) -> (r: bool)
    ensures
        r == (trash_query@.len() > 0 && prompt),
{
    !trash_query.as_str().is_empty() && prompt
}

/// Whether the user's answer (already trimmed) confirms the deletion: its
/// upper-case form is `"Y"`. No character but `y` and `Y` has `Y` as its
/// upper-case form, and every character has a non-empty one, so these are
/// the two answers that confirm.
pub fn confirms_deletion(answer: &str) -> (r: bool)
    ensures
        r == confirms(answer@),
{
    let a = String::from_str(answer);
    let lower = String::from_str("y");
    let upper = String::from_str("Y");
    proof {
        reveal_strlit("y");
        reveal_strlit("Y");
        assert(lower@ =~= seq!['y']);
        assert(upper@ =~= seq!['Y']);
    }
    a == lower || a == upper
}

/// The command that deletes the trashed entry of a trash listing line for
/// good: `gdrive delete -r` of its id.
pub fn delete_trash_command(trash_query: &String) -> (r: String)
    requires
        has_query_fields(trash_query@),
    ensures
        r@ == "gdrive delete -r "@ + words(trash_query@)[0],
{
    let trashed_file_id = GdriveQuery::unwrap(trash_query);
    let mut cmd = String::from_str("gdrive delete -r ");
    cmd.append(trashed_file_id.id.as_str());
    cmd
}

/// The answers that confirm a deletion.
pub open spec fn confirms(answer: Seq<char>) -> bool {
    answer == seq!['y'] || answer == seq!['Y']
}

/// What the trash check does next.
pub enum TrashStep {
    /// Ask the user whether to delete the trashed entry for good.
    Ask,
    /// Run `command`, which deletes the trashed entry for good, then check
    /// the trash for the name again, asking again. The name still counts as
    /// `trashed`: a file deleted from the trash is uploaded anew rather than
    /// updated.
    Delete { command: String, trashed: bool },
    /// Nothing more to do; `trashed` says whether the name was in the trash.
    Done { trashed: bool },
}

/// The next step of checking the trash for a name, given the entry found
/// for it (`trash_query`, empty when none), whether to ask about deleting
/// it, and the user's answer once asked.
pub open spec fn spec_trash_step(
    trash_query: Seq<char>,
    prompt: bool,
    answer: Option<Seq<char>>,
    r: TrashStep,
) -> bool {
    let found = trash_query.len() > 0;
    if !(found && prompt) {
        r == TrashStep::Done { trashed: found }
    } else {
        match answer {
            None => r is Ask,
            Some(a) => if confirms(a) {
                r matches TrashStep::Delete { command, trashed } && command@ == "gdrive delete -r "@
                    + words(trash_query)[0] && trashed
            } else {
                r == TrashStep::Done { trashed: found }
            },
        }
    }
}

/// Both a lower-case and an upper-case "y" (the answers whose upper-case
/// form is "Y") confirm: when an entry was found and asking is on, either
/// answer deletes the entry, by `gdrive delete -r` of its id (the first
/// column of its line), and the name still counts as trashed; any other
/// answer deletes nothing.
pub proof fn lemma_trash_step_confirmed(
    trash_query: Seq<char>,
    answer: Seq<char>,
    r: TrashStep,
)
    requires
        trash_query.len() > 0,
        spec_trash_step(trash_query, true, Some(answer), r),
    ensures
        answer == seq!['y'] || answer == seq!['Y'] ==> (r matches TrashStep::Delete {
            command,
            trashed,
        } && command@ == "gdrive delete -r "@ + words(trash_query)[0] && trashed),
        !(answer == seq!['y'] || answer == seq!['Y']) ==> r == (TrashStep::Done { trashed: true }),
{
}

/// Decides the next step of checking the trash for a name: ask when an
/// entry was found and asking is on; once answered, delete it when the
/// answer confirms; else report whether the name is in the trash.
pub fn trash_step(trash_query: &String, prompt: bool, answer: Option<&str>) -> (r: TrashStep)
    requires
        trash_query@.len() > 0 && prompt && answer is Some && confirms(answer->0@)
            ==> has_query_fields(trash_query@),
    ensures
        spec_trash_step(
            trash_query@,
            prompt,
            match answer {
                Some(a) => Some(a@),
                None => None,
            },
            r,
        ),
{
    if !prompts_for_deletion(trash_query, prompt) {
        return TrashStep::Done { trashed: !trash_query.as_str().is_empty() };
    }
    match answer {
        None => TrashStep::Ask,
        Some(a) => {
            if confirms_deletion(a) {
                TrashStep::Delete { command: delete_trash_command(trash_query), trashed: true }
            } else {
                TrashStep::Done { trashed: true }
            }
        },
    }
}

} // verus!
