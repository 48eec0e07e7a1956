//! Sharing the uploaded folder with the users named on the command line.

use vstd::prelude::*;
use crate::text::{chars_of, split_chars, split_on};

verus! {

/// The comma-separated items of the share argument, empty items included.
pub fn unwrap_share(shared: &str) -> (r: Vec<String>)
    ensures
        r.deep_view() == split_on(shared@, ','),
{
    let cs = chars_of(shared);
    split_chars(&cs, ',')
}

/// `gdrive share --type user --role writer --email <email> <base_dir_id>`.
pub open spec fn share_command(email: Seq<char>, base_dir_id: Seq<char>) -> Seq<char> {
    "gdrive share --type user --role writer --email "@ + email + " "@ + base_dir_id
}

/// The commands that share the folder `base_dir_id` as writable with each
/// user of the comma-separated list `shared`, in order; none when `shared`
/// is empty.
pub fn share(shared: &str, base_dir_id: &str) -> (r: Vec<String>)
    ensures
        shared@.len() == 0 ==> r.len() == 0,
        shared@.len() > 0 ==> r.len() == split_on(shared@, ',').len(),
        shared@.len() > 0 ==> forall|i: int|
            0 <= i < r.len() ==> #[trigger] r@[i]@ == share_command(
                split_on(shared@, ',')[i],
                base_dir_id@,
            ),
{
    let share_to = unwrap_share(shared);
    let mut cmds: Vec<String> = Vec::new();
    if !shared.is_empty() {
        let ghost emails = share_to.deep_view();
        let mut i: usize = 0;
        while i < share_to.len()
            invariant
                i <= share_to.len(),
                emails == share_to.deep_view(),
                emails == split_on(shared@, ','),
                cmds.len() == i,
                forall|j: int|
                    0 <= j < i ==> #[trigger] cmds@[j]@ == share_command(emails[j], base_dir_id@),
            decreases share_to.len() - i,
        {
            let mut cmd = String::from_str("gdrive share --type user --role writer --email ");
            cmd.append(share_to[i].as_str());
            cmd.append(" ");
            cmd.append(base_dir_id);
            assert(share_to@[i as int]@ == emails[i as int]);
            cmds.push(cmd);
            i = i + 1;
        }
    }
    cmds
}

} // verus!
