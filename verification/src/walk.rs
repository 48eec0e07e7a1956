//! The walk through the directory tree being uploaded: every entry of every
//! directory, nested ones included, handed out in depth-first order, and
//! what to do with each.

use vstd::prelude::*;
use crate::files::{classify_path, last_segment, spec_classify_path, spec_last_segment, PathFilter};
use crate::folders::{mkdir_command, reuse_existing, spec_reuse_existing};
use crate::query::GdriveQuery;

verus! {

/// A directory being uploaded: the drive folder its files go into, the name
/// it was looked up by, what the drive holds under that name, whether it is
/// the top directory of the upload, and its entries not yet handed out.
pub struct Frame {
    folder_id: String,
    base_dir: String,
    listing: GdriveQuery,
    base_case: bool,
    entries: Vec<String>,
}

impl Frame {
    /// The drive folder that receives the directory's files.
    pub closed spec fn folder(&self) -> Seq<char> {
        self.folder_id@
    }

    /// The name the directory was looked up by on the drive.
    pub closed spec fn name(&self) -> Seq<char> {
        self.base_dir@
    }

    /// What the drive holds under that name.
    pub closed spec fn found(&self) -> GdriveQuery {
        self.listing
    }

    /// Whether the directory is the top one of the upload.
    pub closed spec fn top_level(&self) -> bool {
        self.base_case
    }

    /// The drive folder that receives the directory's files.
    pub fn folder_id(&self) -> (r: &String)
        ensures
            r@ == self.folder(),
    {
        &self.folder_id
    }

    /// The name the directory was looked up by on the drive.
    pub fn base_dir(&self) -> (r: &String)
        ensures
            r@ == self.name(),
    {
        &self.base_dir
    }

    /// What the drive holds under the directory's name.
    pub fn listing(&self) -> (r: &GdriveQuery)
        ensures
            *r == self.found(),
    {
        &self.listing
    }

    /// Whether the directory is the top one of the upload.
    pub fn base_case(&self) -> (r: bool)
        ensures
            r == self.top_level(),
    {
        self.base_case
    }

    /// The paths of the entries not yet handed out, in order.
    pub closed spec fn remaining(&self) -> Seq<Seq<char>> {
        self.entries.deep_view()
    }

    /// A directory with all of its entries (their paths, in the order the
    /// directory listed them) still to be handed out.
    pub fn new(
        folder_id: String,
        base_dir: String,
        listing: GdriveQuery,
        base_case: bool,
        entries: Vec<String>,
    ) -> (r: Frame)
        ensures
            r.folder() == folder_id@,
            r.name() == base_dir@,
            r.found() == listing,
            r.top_level() == base_case,
            r.remaining() == entries.deep_view(),
    {
        Frame { folder_id, base_dir, listing, base_case, entries }
    }
}

/// The entries still to be handed out by the frames `fs`, the last frame
/// (the innermost directory) first.
pub open spec fn pending_of(fs: Seq<Frame>) -> Seq<Seq<char>>
    decreases fs.len(),
{
    if fs.len() == 0 {
        Seq::empty()
    } else {
        fs.last().remaining() + pending_of(fs.drop_last())
    }
}

/// The directories entered and not yet finished, outermost first.
pub struct Walk {
    frames: Vec<Frame>,
}

/// What the walk does next.
pub enum WalkStep {
    /// Handle the next entry of the innermost open directory.
    Entry(String),
    /// The innermost open directory is finished; `stop` when it was the top
    /// directory of the upload, after which nothing is left.
    Leave { stop: bool },
    /// Nothing is left.
    Done,
}

/// The same directory, as far as what its entries are handled with.
pub open spec fn same_context(a: Frame, b: Frame) -> bool {
    &&& a.folder() == b.folder()
    &&& a.name() == b.name()
    &&& a.found() == b.found()
    &&& a.top_level() == b.top_level()
}

impl Walk {
    /// Only the outermost open directory can be the top one of the upload.
    #[verifier::type_invariant]
    spec fn only_first_is_top(self) -> bool {
        forall|i: int| 0 < i < self.frames@.len() ==> !(#[trigger] self.frames@[i]).top_level()
    }

    /// The open directories, outermost first.
    pub closed spec fn frames(&self) -> Seq<Frame> {
        self.frames@
    }

    /// Every entry still to be handed out: those of the innermost open
    /// directory first, then those of the directory that holds it, and so on.
    pub open spec fn pending(&self) -> Seq<Seq<char>> {
        pending_of(self.frames())
    }

    /// How much is left: each step but the last lowers it.
    pub open spec fn left(&self) -> nat {
        self.pending().len() + self.frames().len()
    }

    /// A walk with nothing entered.
    pub fn new() -> (r: Walk)
        ensures
            r.frames().len() == 0,
            r.pending() == Seq::<Seq<char>>::empty(),
    {
        Walk { frames: Vec::new() }
    }

    /// Enters a directory: its entries are handed out next, before what is
    /// left of the directories around it.
    pub fn enter(&mut self, frame: Frame)
        requires
            frame.top_level() ==> old(self).frames().len() == 0,
        ensures
            final(self).frames() == old(self).frames().push(frame),
            final(self).pending() == frame.remaining() + old(self).pending(),
    {
        proof {
            use_type_invariant(&*self);
        }
        let ghost before = self.frames@;
        let mut frames: Vec<Frame> = Vec::new();
        std::mem::swap(&mut frames, &mut self.frames);
        frames.push(frame);
        assert(frames@.drop_last() =~= before);
        self.frames = frames;
    }

    /// The innermost open directory.
    pub fn current(&self) -> (r: &Frame)
        requires
            self.frames().len() > 0,
        ensures
            *r == self.frames().last(),
    {
        let n = self.frames.len();
        &self.frames[n - 1]
    }

    /// The next step of the walk: the first entry still pending, when the
    /// innermost directory has one; else leaving that directory, which
    /// stops the upload when it is the top one; else the end.
    pub fn next(&mut self) -> (r: WalkStep)
        ensures
            old(self).frames().len() == 0 ==> r is Done && final(self).frames() == old(self).frames(),
            old(self).frames().len() > 0 && old(self).frames().last().remaining().len() > 0 ==> {
                &&& r matches WalkStep::Entry(path) && path@ == old(self).pending()[0]
                &&& final(self).pending() == old(self).pending().drop_first()
                &&& final(self).frames().len() == old(self).frames().len()
                &&& forall|i: int|
                    0 <= i < old(self).frames().len() - 1 ==> final(self).frames()[i] == old(
                        self,
                    ).frames()[i]
                &&& same_context(final(self).frames().last(), old(self).frames().last())
                &&& final(self).frames().last().remaining() == old(
                    self,
                ).frames().last().remaining().drop_first()
            },
            old(self).frames().len() > 0 && old(self).frames().last().remaining().len() == 0 ==> {
                &&& r == WalkStep::Leave { stop: old(self).frames().last().top_level() }
                &&& final(self).frames() == old(self).frames().drop_last()
                &&& final(self).pending() == old(self).pending()
            },
            !(r is Done) ==> final(self).left() < old(self).left(),
            r is Done ==> old(self).pending().len() == 0,
            r == (WalkStep::Leave { stop: true }) ==> final(self).frames().len() == 0
                && old(self).pending().len() == 0,
    {
        proof {
            use_type_invariant(&*self);
        }
        let ghost before = self.frames@;
        let mut frames: Vec<Frame> = Vec::new();
        std::mem::swap(&mut frames, &mut self.frames);
        match frames.pop() {
            None => {
                assert(frames@ =~= before);
                self.frames = frames;
                WalkStep::Done
            },
            Some(mut top) => {
                assert(frames@ =~= before.drop_last());
                if top.entries.len() == 0 {
                    proof {
                        assert(top.remaining().len() == 0);
                        assert(pending_of(before) =~= pending_of(before.drop_last()));
                        if top.base_case {
                            assert(before.len() == 1);
                            assert(before.drop_last().len() == 0);
                        }
                    }
                    let stop = top.base_case;
                    self.frames = frames;
                    WalkStep::Leave { stop }
                } else {
                    let ghost old_rem = top.remaining();
                    let path = top.entries.remove(0);
                    assert(top.remaining() =~= old_rem.drop_first());
                    assert(path@ == old_rem[0]);
                    frames.push(top);
                    proof {
                        assert(frames@.drop_last() =~= before.drop_last());
                        assert(pending_of(frames@) =~= pending_of(before).drop_first());
                    }
                    self.frames = frames;
                    WalkStep::Entry(path)
                }
            },
        }
    }
}

/// What an entry of a directory is to the upload.
#[derive(Debug)]
pub enum EntryAction {
    /// Git data, compiled classes or the ignore file: passed over silently.
    Skip,
    /// Named in `.driveignore`: passed over with a notice.
    Ignore,
    /// A directory, uploaded as the drive folder `name`.
    Folder { name: String },
    /// A file, sent as the drive file `name`.
    File { name: String },
}

/// The action for the entry at `path`: skipped or ignored as the path
/// filter says, else a folder or a file (as the entry's metadata says,
/// `is_dir`) named by the last segment of its path.
pub open spec fn spec_next_action(
    path: Seq<char>,
    driveignore: Seq<Seq<char>>,
    is_dir: bool,
    r: EntryAction,
) -> bool {
    match spec_classify_path(path, driveignore) {
        PathFilter::Skip => r is Skip,
        PathFilter::Ignore => r is Ignore,
        PathFilter::Keep => if is_dir {
            r matches EntryAction::Folder { name } && name@ == spec_last_segment(path)
        } else {
            r matches EntryAction::File { name } && name@ == spec_last_segment(path)
        },
    }
}

/// Decides what the entry at `path` is to the upload, given the lines of
/// `.driveignore` and whether the entry is a directory (consulted only for
/// an entry that is neither skipped nor ignored).
pub fn next_action(path: &str, driveignore: &Vec<String>, is_dir: bool) -> (r: EntryAction)
    ensures
        spec_next_action(path@, driveignore.deep_view(), is_dir, r),
{
    match classify_path(path, driveignore) {
        PathFilter::Skip => EntryAction::Skip,
        PathFilter::Ignore => EntryAction::Ignore,
        PathFilter::Keep => {
            let name = last_segment(path);
            if is_dir {
                EntryAction::Folder { name }
            } else {
                EntryAction::File { name }
            }
        },
    }
}

/// How a nested directory is uploaded: into the drive folder found for it,
/// or into one created for it first.
pub enum FolderAction {
    /// Upload the directory `dir` with `course` as its course argument,
    /// looked up on the drive as `base_dir`.
    Enter { course: String, dir: String, base_dir: String },
    /// Run `command` (a `gdrive mkdir`), then upload `dir` with the new
    /// folder's id as its course argument, looked up as `base_dir`.
    Create { command: String, dir: String, base_dir: String },
}

/// The upload of the nested directory at `path` inside `frame`: when the
/// drive holds it already (`sub_query`, found in the frame's folder) and
/// the trash holds nothing of the frame's name (`not_trashed`), it is
/// entered with the frame's folder as its course and its name and a line
/// break as its name; else a folder of its name is created in the frame's
/// folder and the directory is uploaded into it under the frame's name.
pub open spec fn spec_folder_action(
    frame: Frame,
    path: Seq<char>,
    sub_query: GdriveQuery,
    not_trashed: bool,
    r: FolderAction,
) -> bool {
    if spec_reuse_existing(sub_query, not_trashed) {
        r matches FolderAction::Enter { course, dir, base_dir } && course@ == frame.folder()
            && dir@ == path && base_dir@ == spec_last_segment(path).push('\n')
    } else {
        r matches FolderAction::Create { command, dir, base_dir } && command@
            == "gdrive mkdir --parent "@ + frame.folder() + " "@ + spec_last_segment(path)
            && dir@ == path && base_dir@ == frame.name()
    }
}

/// A nested directory that was not found on the drive is always created
/// anew in the frame's folder, whatever the trash says; it is entered only
/// when it was found and the trash holds nothing of the frame's name.
pub proof fn lemma_folder_action(
    frame: Frame,
    path: Seq<char>,
    sub_query: GdriveQuery,
    not_trashed: bool,
    r: FolderAction,
)
    requires
        spec_folder_action(frame, path, sub_query, not_trashed, r),
    ensures
        !sub_query.update ==> (r matches FolderAction::Create { command, dir, base_dir } && command@
            == "gdrive mkdir --parent "@ + frame.folder() + " "@ + spec_last_segment(path) && dir@
            == path),
        r is Enter ==> sub_query.update && not_trashed,
{
}

/// Decides how the nested directory at `path`, an entry of `frame`, is
/// uploaded.
pub fn folder_action(
    frame: &Frame,
    path: &str,
    sub_query: &GdriveQuery,
    not_trashed: bool,
) -> (r: FolderAction)
    ensures
        spec_folder_action(*frame, path@, *sub_query, not_trashed, r),
{
    let name = last_segment(path);
    if reuse_existing(sub_query, not_trashed) {
        let mut base_dir = name;
        base_dir.append("\n");
        proof {
            reveal_strlit("\n");
            assert(base_dir@ =~= spec_last_segment(path@).push('\n'));
        }
        FolderAction::Enter {
            course: frame.folder_id().clone(),
            dir: String::from_str(path),
            base_dir,
        }
    } else {
        FolderAction::Create {
            command: mkdir_command(frame.folder_id().as_str(), name.as_str()),
            dir: String::from_str(path),
            base_dir: frame.base_dir().clone(),
        }
    }
}

} // verus!
