//! Files of the directory being uploaded: which to skip, what a file is
//! called on the drive, its drive id, and the command that sends it.

use vstd::prelude::*;
use crate::query::GdriveQuery;
use crate::text::{
    chars_of, contains, join_with, lemma_split_join, lemma_split_on_len, split_chars, split_on,
    str_contains,
};

verus! {

/// A copy of `borrowed_string` as an owned `String`.
fn convert_string_ref(borrowed_string: &str) -> (r: String)
    ensures
        r@ == borrowed_string@,
{
    String::from_str(borrowed_string)
}

/// The drive id of a local file: empty when the file is not on the drive.
pub struct FileId {
    id: String,
}

impl View for FileId {
    type V = Seq<char>;

    closed spec fn view(&self) -> Seq<char> {
        self.id@
    }
}

/// The drive id of a file: the id of the entry found under its name when
/// its folder is already on the drive (`gstruct.update`) and an entry of
/// that name was found there, else empty.
pub open spec fn spec_file_id(gstruct: GdriveQuery, file_query: Option<GdriveQuery>) -> Seq<char> {
    match file_query {
        Some(q) => if gstruct.update && q.update {
            q.id@
        } else {
            Seq::empty()
        },
        None => Seq::empty(),
    }
}

impl FileId {
    /// A copy of this id.
    fn unwrap(&self) -> (r: FileId)
        ensures
            r@ == self@,
    {
        if self.id.as_str().is_empty() {
            let r = FileId { id: String::new() };
            assert(r@ =~= self@);
            r
        } else {
            FileId { id: convert_string_ref(self.id.as_str()) }
        }
    }

    /// The id of a file whose folder was looked up as `gstruct`, and which
    /// was itself looked up by name in that folder as `file_query` (`None`
    /// when the folder is not on the drive, so that there was nothing to
    /// look up).
    fn return_file_id(gstruct: &GdriveQuery, file_query: &Option<GdriveQuery>) -> (r: FileId)
        ensures
            r@ == spec_file_id(*gstruct, *file_query),
    {
        if gstruct.update {
            match file_query {
                Some(q) => {
                    if q.update {
                        FileId { id: q.id.clone() }
                    } else {
                        let r = FileId { id: String::new() };
                        assert(r@ =~= spec_file_id(*gstruct, *file_query));
                        r
                    }
                },
                None => {
                    let r = FileId { id: String::new() };
                    assert(r@ =~= spec_file_id(*gstruct, *file_query));
                    r
                },
            }
        } else {
            let r = FileId { id: String::new() };
            assert(r@ =~= spec_file_id(*gstruct, *file_query));
            r
        }
    }

    /// The drive id of a file, as a string: empty when the file is to be
    /// uploaded anew.
    pub fn get(gstruct: &GdriveQuery, file_query: &Option<GdriveQuery>) -> (r: String)
        ensures
            r@ == spec_file_id(*gstruct, *file_query),
    {
        let file_id = FileId::return_file_id(gstruct, file_query);
        file_id.unwrap().to_str()
    }

    /// The id as a string.
    pub fn to_str(&self) -> (r: String)
        ensures
            r@ == self@,
    {
        convert_string_ref(self.id.as_str())
    }
}

/// The command that sends a file to the drive: an update of the existing
/// entry when the file has an id there that is not in the trash, else an
/// upload into the parent folder.
pub open spec fn spec_upload_or_update_cmd(
    file_id: Seq<char>,
    parent_id: Seq<char>,
    path: Seq<char>,
    in_trash: bool,
) -> Seq<char> {
    if file_id.len() > 0 && !in_trash {
        "gdrive update "@ + file_id + " "@ + path
    } else {
        "gdrive upload --parent "@ + parent_id + " "@ + path
    }
}

/// The `gdrive` command for a local file at `path`: `gdrive update` of its
/// id when it has one (`file_id` not empty) and that id is not in the drive
/// trash (`in_trash`, looked up only for a non-empty id), else `gdrive
/// upload` into `parent_id`.
pub fn return_upload_or_update_cmd(
    file_id: &String,
    parent_id: &String,
    path: &String,
    in_trash: bool,
) -> (r: String)
    ensures
        r@ == spec_upload_or_update_cmd(file_id@, parent_id@, path@, in_trash),
{
    if !file_id.as_str().is_empty() && !in_trash {
        let mut cmd = String::from_str("gdrive update ");
        cmd.append(file_id.as_str());
        cmd.append(" ");
        cmd.append(path.as_str());
        cmd
    } else {
        let mut cmd = String::from_str("gdrive upload --parent ");
        cmd.append(parent_id.as_str());
        cmd.append(" ");
        cmd.append(path.as_str());
        cmd
    }
}

/// What to do with an entry of the directory being uploaded.
#[derive(PartialEq, Eq, Structural, Debug)]
pub enum PathFilter {
    /// Git data, compiled classes and the ignore file itself: passed over
    /// silently.
    Skip,
    /// Named in the `.driveignore` file: passed over with a notice.
    Ignore,
    /// To be uploaded.
    Keep,
}

/// The filter for a path: `Skip` when it holds `.git`, `.class` or
/// `.driveignore` anywhere, else `Ignore` when it is one of the lines of the
/// `.driveignore` file, else `Keep`.
pub open spec fn spec_classify_path(path: Seq<char>, driveignore: Seq<Seq<char>>) -> PathFilter {
    if contains(path, ".git"@) || contains(path, ".class"@) || contains(path, ".driveignore"@) {
        PathFilter::Skip
    } else if driveignore.contains(path) {
        PathFilter::Ignore
    } else {
        PathFilter::Keep
    }
}

/// What the path filter decides, by the path alone: a path that holds
/// `.git`, `.class` or `.driveignore` is skipped; any other path that equals
/// any one of the `.driveignore` lines, wherever that line stands, is
/// ignored; any other path is uploaded.
pub proof fn lemma_classify_path(path: Seq<char>, driveignore: Seq<Seq<char>>)
    ensures
        contains(path, ".git"@) ==> spec_classify_path(path, driveignore) == PathFilter::Skip,
        contains(path, ".class"@) ==> spec_classify_path(path, driveignore) == PathFilter::Skip,
        contains(path, ".driveignore"@) ==> spec_classify_path(path, driveignore)
            == PathFilter::Skip,
        forall|i: int|
            0 <= i < driveignore.len() && #[trigger] driveignore[i] == path && !contains(
                path,
                ".git"@,
            ) && !contains(path, ".class"@) && !contains(path, ".driveignore"@)
                ==> spec_classify_path(path, driveignore) == PathFilter::Ignore,
        (forall|i: int| 0 <= i < driveignore.len() ==> #[trigger] driveignore[i] != path) && !contains(
            path,
            ".git"@,
        ) && !contains(path, ".class"@) && !contains(path, ".driveignore"@) ==> spec_classify_path(
            path,
            driveignore,
        ) == PathFilter::Keep,
{
    assert forall|i: int|
        0 <= i < driveignore.len() && #[trigger] driveignore[i] == path implies driveignore.contains(
            path,
        ) by {}
}

/// Decides whether the entry at `readable_path` is uploaded, given the lines
/// of the `.driveignore` file.
pub fn classify_path(readable_path: &str, driveignore: &Vec<String>) -> (r: PathFilter)
    ensures
        r == spec_classify_path(readable_path@, driveignore.deep_view()),
{
    if str_contains(readable_path, ".git") || str_contains(readable_path, ".class")
        || str_contains(readable_path, ".driveignore") {
        return PathFilter::Skip;
    }
    let path = String::from_str(readable_path);
    let ghost ig = driveignore.deep_view();
    let mut i: usize = 0;
    while i < driveignore.len()
        invariant
            i <= driveignore.len(),
            ig == driveignore.deep_view(),
            path@ == readable_path@,
            !contains(readable_path@, ".git"@),
            !contains(readable_path@, ".class"@),
            !contains(readable_path@, ".driveignore"@),
            forall|j: int| 0 <= j < i ==> ig[j] != readable_path@,
        decreases driveignore.len() - i,
    {
        if driveignore[i] == path {
            assert(ig[i as int] == readable_path@);
            assert(ig.contains(readable_path@));
            return PathFilter::Ignore;
        }
        i = i + 1;
    }
    assert(!ig.contains(readable_path@));
    PathFilter::Keep
}

/// The last `/`-separated segment of a path: the name of a file or folder
/// on the drive.
pub open spec fn spec_last_segment(path: Seq<char>) -> Seq<char> {
    split_on(path, '/').last()
}

/// The name of a path is its end: it holds no `/`, and it is all of the
/// path or follows the path's last `/`.
pub proof fn lemma_last_segment(path: Seq<char>)
    ensures
        !spec_last_segment(path).contains('/'),
        spec_last_segment(path).len() <= path.len(),
        path.subrange(path.len() - spec_last_segment(path).len(), path.len() as int)
            == spec_last_segment(path),
        spec_last_segment(path).len() < path.len() ==> path[path.len()
            - spec_last_segment(path).len() - 1] == '/',
{
    let p = split_on(path, '/');
    lemma_split_join(path, '/');
    lemma_split_on_len(path, '/');
    let r = p.last();
    assert(!r.contains('/')) by {
        assert(r == p[p.len() - 1]);
    }
    if p.len() == 1 {
        assert(join_with(p, '/') == p[0]);
        assert(path.subrange(0, path.len() as int) =~= path);
    } else {
        let pre = join_with(p.drop_last(), '/').push('/');
        assert(path == pre + r);
        assert(path.subrange(path.len() - r.len(), path.len() as int) =~= r);
        assert(path[path.len() - r.len() - 1] == pre.last());
    }
}

/// The last `/`-separated segment of `path`.
pub fn last_segment(path: &str) -> (r: String)
    ensures
        r@ == spec_last_segment(path@),
{
    let cs = chars_of(path);
    let mut parts = split_chars(&cs, '/');
    proof {
        lemma_split_on_len(path@, '/');
    }
    let n = parts.len();
    assert(parts@[n - 1]@ == parts.deep_view()[n - 1]);
    parts.remove(n - 1)
}

} // verus!
