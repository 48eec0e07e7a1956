//! Drive folders: the folder of a course, the id of a folder that
//! `gdrive mkdir` created, and the folder that an upload goes into.

use vstd::prelude::*;
use crate::query::GdriveQuery;
use crate::text::{is_whitespace, trim_end, trim_end_of};

verus! {

/// The folder id that `courses` gives `key`: the value of the last entry
/// with that key, as a map built from the entries in order keeps it.
pub open spec fn course_lookup(courses: Seq<(Seq<char>, Seq<char>)>, key: Seq<char>) -> Option<Seq<char>>
    decreases courses.len(),
{
    if courses.len() == 0 {
        None
    } else if courses.last().0 == key {
        Some(courses.last().1)
    } else {
        course_lookup(courses.drop_last(), key)
    }
}

/// The entries of a course table as pairs of character sequences.
pub open spec fn course_entries(courses: Seq<(String, String)>) -> Seq<(Seq<char>, Seq<char>)> {
    courses.map_values(|e: (String, String)| (e.0@, e.1@))
}

/// The lookup of a course finds the value of the last entry with its key,
/// wherever that entry stands, and nothing when no entry has the key.
proof fn lemma_course_lookup(courses: Seq<(Seq<char>, Seq<char>)>, key: Seq<char>, j: int)
    requires
        0 <= j < courses.len(),
        courses[j].0 == key,
        forall|q: int| j < q < courses.len() ==> (#[trigger] courses[q]).0 != key,
    ensures
        course_lookup(courses, key) == Some(courses[j].1),
    decreases courses.len(),
{
    if j < courses.len() - 1 {
        let cd = courses.drop_last();
        assert(courses.last() == courses[courses.len() - 1]);
        assert forall|q: int| j < q < cd.len() implies (#[trigger] cd[q]).0 != key by {
            assert(cd[q] == courses[q]);
        }
        lemma_course_lookup(cd, key, j);
        assert(cd[j] == courses[j]);
    }
}

/// No entry with the key: nothing is found.
proof fn lemma_course_lookup_none(courses: Seq<(Seq<char>, Seq<char>)>, key: Seq<char>)
    requires
        forall|q: int| 0 <= q < courses.len() ==> (#[trigger] courses[q]).0 != key,
    ensures
        course_lookup(courses, key) is None,
    decreases courses.len(),
{
    if courses.len() > 0 {
        let cd = courses.drop_last();
        assert(courses.last() == courses[courses.len() - 1]);
        assert forall|q: int| 0 <= q < cd.len() implies (#[trigger] cd[q]).0 != key by {
            assert(cd[q] == courses[q]);
        }
        lemma_course_lookup_none(cd, key);
    }
}

/// A course named in the table resolves to the folder id of the last table
/// entry with that name, wherever it stands (the first entry included); a
/// course argument that no entry names is taken as a folder id itself.
pub proof fn lemma_return_parent(fname: Seq<char>, courses: Seq<(String, String)>)
    ensures
        forall|j: int|
            0 <= j < courses.len() && (#[trigger] courses[j]).0@ == fname && (forall|q: int|
                j < q < courses.len() ==> (#[trigger] courses[q]).0@ != fname)
                ==> spec_return_parent(fname, courses) == courses[j].1@,
        (forall|q: int| 0 <= q < courses.len() ==> (#[trigger] courses[q]).0@ != fname)
            ==> spec_return_parent(fname, courses) == fname,
{
    let entries = course_entries(courses);
    assert forall|j: int|
        0 <= j < courses.len() && (#[trigger] courses[j]).0@ == fname && (forall|q: int|
            j < q < courses.len() ==> (#[trigger] courses[q]).0@ != fname) implies spec_return_parent(
        fname,
        courses,
    ) == courses[j].1@ by {
        assert forall|q: int| j < q < entries.len() implies (#[trigger] entries[q]).0 != fname by {
            assert(entries[q] == (courses[q].0@, courses[q].1@));
        }
        assert(entries[j] == (courses[j].0@, courses[j].1@));
        lemma_course_lookup(entries, fname, j);
    }
    if forall|q: int| 0 <= q < courses.len() ==> (#[trigger] courses[q]).0@ != fname {
        assert forall|q: int| 0 <= q < entries.len() implies (#[trigger] entries[q]).0 != fname by {
            assert(entries[q] == (courses[q].0@, courses[q].1@));
        }
        lemma_course_lookup_none(entries, fname);
    }
}

/// The parent folder for a course argument: the folder id that the course
/// table gives it, or the argument itself (taken as a folder id) when the
/// table does not name it.
pub open spec fn spec_return_parent(fname: Seq<char>, courses: Seq<(String, String)>) -> Seq<char> {
    match course_lookup(course_entries(courses), fname) {
        Some(id) => id,
        None => fname,
    }
}

/// The drive folder to upload into for the course argument `fname`, given
/// the table of course names and their folder ids.
pub fn return_parent(fname: &str, courses: &Vec<(String, String)>) -> (r: String)
    ensures
        r@ == spec_return_parent(fname@, courses@),
{
    let key = String::from_str(fname);
    let ghost entries = course_entries(courses@);
    let mut i = courses.len();
    assert(entries.take(i as int) =~= entries);
    while i > 0
        invariant
            i <= courses.len(),
            key@ == fname@,
            entries == course_entries(courses@),
            course_lookup(entries.take(i as int), fname@) == course_lookup(entries, fname@),
        decreases i,
    {
        let ghost t = entries.take(i as int);
        assert(t.drop_last() =~= entries.take(i - 1));
        assert(t.last() == (courses@[i - 1].0@, courses@[i - 1].1@));
        if courses[i - 1].0 == key {
            return courses[i - 1].1.clone();
        }
        i = i - 1;
    }
    assert(entries.take(0).len() == 0);
    key
}

/// The width in bytes of the UTF-8 encoding of `c`.
pub open spec fn utf8_width(c: char) -> int {
    if (c as u32) < 0x80 {
        1
    } else if (c as u32) < 0x800 {
        2
    } else if (c as u32) < 0x10000 {
        3
    } else {
        4
    }
}

/// What is left of `s` after its first `n` bytes in UTF-8, or `None` when
/// `s` is shorter than that or byte `n` falls inside a character.
pub open spec fn skip_bytes(s: Seq<char>, n: int) -> Option<Seq<char>>
    decreases s.len(),
{
    if n == 0 {
        Some(s)
    } else if s.len() == 0 || n < utf8_width(s[0]) {
        None
    } else {
        skip_bytes(s.drop_first(), n - utf8_width(s[0]))
    }
}

/// `s` without its last `n` characters (all of them when it has fewer).
pub open spec fn drop_chars_at_end(s: Seq<char>, n: int) -> Seq<char> {
    if s.len() <= n {
        Seq::empty()
    } else {
        s.take(s.len() - n)
    }
}

/// The folder id in what `gdrive mkdir` prints (`Directory <id>
/// created` and a line break): the output without its last eight
/// characters, then without its first ten bytes, then without the white
/// space left at its end; `None` when the output is too short for that or
/// byte ten falls inside a character.
pub open spec fn new_dir_id(directory: Seq<char>) -> Option<Seq<char>> {
    match skip_bytes(drop_chars_at_end(directory, 8), 10) {
        Some(rest) => Some(trim_end(rest)),
        None => None,
    }
}

/// Skipping the bytes of an ASCII prefix leaves what follows it.
proof fn lemma_skip_ascii_prefix(a: Seq<char>, b: Seq<char>)
    requires
        forall|i: int| 0 <= i < a.len() ==> (#[trigger] a[i] as u32) < 0x80,
    ensures
        skip_bytes(a + b, a.len() as int) == Some(b),
    decreases a.len(),
{
    if a.len() == 0 {
        assert(a + b =~= b);
    } else {
        let ad = a.drop_first();
        assert forall|i: int| 0 <= i < ad.len() implies (#[trigger] ad[i] as u32) < 0x80 by {
            assert(ad[i] == a[i + 1]);
        }
        lemma_skip_ascii_prefix(ad, b);
        assert((a + b)[0] == a[0]);
        assert((a + b).drop_first() =~= ad + b);
    }
}

/// The id that `gdrive mkdir` reports is read back whole and alone: for
/// the output `Directory <id> created` followed by a line break, as
/// `gdrive` prints it, and for the same output without the line break,
/// the id (one that does not end in white space; an id never holds any).
pub proof fn lemma_new_dir_id(id: Seq<char>)
    requires
        id.len() == 0 || !is_whitespace(id.last()),
    ensures
        new_dir_id("Directory "@ + id + " created\n"@) == Some(id),
        new_dir_id("Directory "@ + id + " created"@) == Some(id),
{
    reveal_strlit("Directory ");
    reveal_strlit(" created\n");
    reveal_strlit(" created");
    let p = "Directory "@;
    assert forall|i: int| 0 <= i < p.len() implies (#[trigger] p[i] as u32) < 0x80 by {}
    let s1 = p + id + " created\n"@;
    assert(drop_chars_at_end(s1, 8) =~= p + id.push(' '));
    lemma_skip_ascii_prefix(p, id.push(' '));
    assert(id.push(' ').drop_last() =~= id);
    assert(trim_end(id.push(' ')) == trim_end(id));
    let s2 = p + id + " created"@;
    assert(drop_chars_at_end(s2, 8) =~= p + id);
    lemma_skip_ascii_prefix(p, id);
}

/// The UTF-8 width of a character, computed.
fn char_width(c: char) -> (r: usize)
    ensures
        r == utf8_width(c),
{
    if '\u{80}' > c {
        1
    } else if '\u{800}' > c {
        2
    } else if '\u{10000}' > c {
        3
    } else {
        4
    }
}

/// The id of the folder that `gdrive mkdir` reports as created in
/// `directory` (`Directory <id> created` and a line break): the output
/// without its last eight characters, its first ten bytes and the white
/// space then left at its end.
pub fn unwrap_new_dir(directory: String) -> (r: String)
    requires
        new_dir_id(directory@) is Some,
    ensures
        r@ == new_dir_id(directory@)->0,
{
    let cs = crate::text::chars_of(directory.as_str());
    let keep = if cs.len() <= 8 { 0 } else { cs.len() - 8 };
    assert(cs@.take(keep as int) =~= drop_chars_at_end(directory@, 8));
    let ghost t = cs@.take(keep as int);
    let mut i: usize = 0;
    let mut left: usize = 10;
    assert(t.skip(0) =~= t);
    while left > 0
        invariant
            i <= keep <= cs.len(),
            t == cs@.take(keep as int),
            left <= 10,
            skip_bytes(t.skip(i as int), left as int) == skip_bytes(t, 10),
            skip_bytes(t, 10) is Some,
        decreases left,
    {
        let ghost u = t.skip(i as int);
        proof {
            assert(u.len() > 0 && left >= utf8_width(u[0]));
            assert(u[0] == cs@[i as int]);
        }
        let w = char_width(cs[i]);
        assert(u.drop_first() =~= t.skip(i + 1));
        left = left - w;
        i = i + 1;
    }
    let rest = crate::text::string_of(&cs, i, keep);
    assert(rest@ =~= t.skip(i as int));
    trim_end_of(rest.as_str())
}

/// An entry found on the drive (`q.update`) is reused, rather than created
/// anew, when it is not in the trash.
pub open spec fn spec_reuse_existing(q: GdriveQuery, not_trashed: bool) -> bool {
    q.update && not_trashed
}

/// Whether the entry `q` found on the drive is reused: it was found and the
/// trash holds nothing of that name (`not_trashed`).
pub fn reuse_existing(q: &GdriveQuery, not_trashed: bool) -> (r: bool)
    ensures
        r == spec_reuse_existing(*q, not_trashed),
{
    q.update && not_trashed
}

/// `gdrive mkdir --parent <parent_id> <name>`.
pub fn mkdir_command(parent_id: &str, name: &str) -> (r: String)
    ensures
        r@ == "gdrive mkdir --parent "@ + parent_id@ + " "@ + name@,
{
    let mut cmd = String::from_str("gdrive mkdir --parent ");
    cmd.append(parent_id);
    cmd.append(" ");
    cmd.append(name);
    cmd
}

/// `gdrive list --query " '<folder_id>' in parents "`: the entries of a
/// folder.
pub fn list_command(folder_id: &str) -> (r: String)
    ensures
        r@ == "gdrive list --query \" '"@ + folder_id@ + "' in parents \""@,
{
    let mut cmd = String::from_str("gdrive list --query \" '");
    cmd.append(folder_id);
    cmd.append("' in parents \"");
    cmd
}

/// The base folder of an upload: one that exists already, by its id, or
/// one still to create, by the `gdrive mkdir` command that creates it.
pub enum BaseDirectory {
    Existing(String),
    Create(String),
}

/// The id of the folder that the files of a directory go into: for a
/// nested directory (`!base_case`) the folder given; for the top one, the
/// folder found on the drive under its name (`gstruct`) when it is reused,
/// else a new folder named `get_basedir_str` under `cse_folder_id`.
pub open spec fn spec_return_base_directory(
    gstruct: GdriveQuery,
    cse_folder_id: Seq<char>,
    get_basedir_str: Seq<char>,
    base_case: bool,
    not_trashed: bool,
    r: BaseDirectory,
) -> bool {
    if !base_case {
        r matches BaseDirectory::Existing(id) && id@ == cse_folder_id
    } else if spec_reuse_existing(gstruct, not_trashed) {
        r matches BaseDirectory::Existing(id) && id@ == gstruct.id@
    } else {
        r matches BaseDirectory::Create(cmd) && cmd@ == "gdrive mkdir --parent "@ + cse_folder_id
            + " "@ + get_basedir_str
    }
}

/// The top folder of an upload is reused only when it was found on the
/// drive and is not in the trash, and then by the id found; an entry that
/// was not found is always created anew, whatever the trash says; a nested
/// directory always goes into the folder it was given.
pub proof fn lemma_return_base_directory(
    gstruct: GdriveQuery,
    cse_folder_id: Seq<char>,
    get_basedir_str: Seq<char>,
    base_case: bool,
    not_trashed: bool,
    r: BaseDirectory,
)
    requires
        spec_return_base_directory(
            gstruct,
            cse_folder_id,
            get_basedir_str,
            base_case,
            not_trashed,
            r,
        ),
    ensures
        base_case && !gstruct.update ==> (r matches BaseDirectory::Create(cmd) && cmd@
            == "gdrive mkdir --parent "@ + cse_folder_id + " "@ + get_basedir_str),
        base_case && !not_trashed ==> r is Create,
        base_case && r is Existing ==> gstruct.update && not_trashed && r->Existing_0@
            == gstruct.id@,
        !base_case ==> (r matches BaseDirectory::Existing(id) && id@ == cse_folder_id),
{
}

/// Chooses the folder that the files of a directory go into. `not_trashed`
/// says whether the trash holds nothing named `cse_folder_id`; it is
/// consulted only for the top directory and when `gstruct` was found.
pub fn return_base_directory(
    gstruct: &GdriveQuery,
    cse_folder_id: &String,
    get_basedir_str: &String,
    base_case: bool,
    not_trashed: bool,
) -> (r: BaseDirectory)
    ensures
        spec_return_base_directory(
            *gstruct,
            cse_folder_id@,
            get_basedir_str@,
            base_case,
            not_trashed,
            r,
        ),
{
    if !base_case {
        return BaseDirectory::Existing(cse_folder_id.clone());
    }
    if reuse_existing(gstruct, not_trashed) {
        BaseDirectory::Existing(gstruct.id.clone())
    } else {
        BaseDirectory::Create(mkdir_command(cse_folder_id.as_str(), get_basedir_str.as_str()))
    }
}

} // verus!
