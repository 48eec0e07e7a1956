//! What `gdrive list` prints, and the record of one listed file.

use vstd::prelude::*;
use crate::append::{lemma_lines_unlines, unlines};
use crate::text::{
    strip_cr,
    chars_of, is_whitespace, is_whitespace_char, join_with, lemma_words_join, lines, lines_of,
    occurs_at, trim_end, trim_end_of, words, words_of,
};

verus! {

/// `term` stands at position `i` of `line` as a whole term: it occurs
/// there, at the start of the line or after white space, and a space
/// follows it (the separator of `gdrive list` columns).
pub open spec fn term_at(line: Seq<char>, term: Seq<char>, i: int) -> bool {
    &&& occurs_at(line, term, i)
    &&& (i == 0 || is_whitespace(line[i - 1]))
    &&& i + term.len() < line.len()
    &&& line[i + term.len()] == ' '
}

/// `line` holds `term` as a whole term somewhere: a name that merely
/// contains `term`, or ends or begins with it, does not count.
pub open spec fn holds_term(line: Seq<char>, term: Seq<char>) -> bool {
    exists|i: int| term_at(line, term, i)
}

/// The line of `ls` at index `i` or after it that first holds `term` as a
/// whole term, or the empty sequence when none does.
pub open spec fn find_line_from(ls: Seq<Seq<char>>, term: Seq<char>, i: int) -> Seq<char>
    decreases ls.len() - i,
{
    if i < 0 || i >= ls.len() {
        Seq::empty()
    } else if holds_term(ls[i], term) {
        ls[i]
    } else {
        find_line_from(ls, term, i + 1)
    }
}

/// The term a listing line is searched for: the search string without its
/// trailing white space (such as the line break of a name read from a
/// command's output).
pub open spec fn search_term(search: Seq<char>) -> Seq<char> {
    trim_end(search)
}

/// The first line of a `gdrive list` output, after its header line, that
/// holds the search term as a whole term; empty when there is none.
pub open spec fn spec_unwrap_gdrive_query(cmd_output: Seq<char>, search: Seq<char>) -> Seq<char> {
    find_line_from(lines(cmd_output), search_term(search), 1)
}

/// What the search finds from index `i` on: a line at `i` or after it that
/// holds the term, with no line between `i` and it holding the term; or
/// nothing, exactly when no line from `i` on holds it.
proof fn lemma_find_line_from(ls: Seq<Seq<char>>, term: Seq<char>, i: int)
    requires
        0 <= i,
    ensures
        find_line_from(ls, term, i).len() > 0 <==> exists|j: int|
            i <= j < ls.len() && holds_term(#[trigger] ls[j], term),
        find_line_from(ls, term, i).len() > 0 ==> exists|j: int|
            i <= j < ls.len() && ls[j] == find_line_from(ls, term, i) && holds_term(ls[j], term)
                && forall|q: int| i <= q < j ==> !holds_term(#[trigger] ls[q], term),
    decreases ls.len() - i,
{
    if i < ls.len() {
        if holds_term(ls[i], term) {
            let k = choose|k: int| term_at(ls[i], term, k);
            assert(ls[i].len() > 0);
        } else {
            lemma_find_line_from(ls, term, i + 1);
            if find_line_from(ls, term, i).len() > 0 {
                let j = choose|j: int|
                    i + 1 <= j < ls.len() && ls[j] == find_line_from(ls, term, i + 1) && holds_term(
                        ls[j],
                        term,
                    ) && forall|q: int| i + 1 <= q < j ==> !holds_term(#[trigger] ls[q], term);
                assert(forall|q: int| i <= q < j ==> !holds_term(#[trigger] ls[q], term));
            }
        }
    }
}

/// The line picked out of a `gdrive list` output is a line after the
/// header that holds the search term (the search string without trailing
/// white space) as a whole term, and no line between the header and it
/// holds it; nothing is picked exactly when no line after the header holds
/// the term.
pub proof fn lemma_unwrap_gdrive_query_found(cmd_output: Seq<char>, search: Seq<char>)
    ensures
        ({
            let r = spec_unwrap_gdrive_query(cmd_output, search);
            let ls = lines(cmd_output);
            let t = search_term(search);
            &&& r.len() > 0 <==> exists|j: int| 1 <= j < ls.len() && holds_term(#[trigger] ls[j], t)
            &&& r.len() > 0 ==> exists|j: int|
                1 <= j < ls.len() && ls[j] == r && holds_term(r, t) && forall|q: int|
                    1 <= q < j ==> !holds_term(#[trigger] ls[q], t)
        }),
{
    lemma_find_line_from(lines(cmd_output), search_term(search), 1);
}

/// A name at the very start of an entry line, followed by a space, is
/// found: for a listing of a header line and one entry line that begins
/// with `name` and a space (as every entry line begins with its id), the
/// search for `name` gives that entry line. Here `name` is a non-empty run
/// of non-white-space characters, neither line holds a line break, and
/// neither ends in a carriage return.
pub proof fn lemma_term_at_line_start_found(header: Seq<char>, name: Seq<char>, rest: Seq<char>)
    requires
        name.len() > 0,
        forall|k: int| 0 <= k < name.len() ==> !is_whitespace(#[trigger] name[k]),
        !header.contains('\n'),
        strip_cr(header) == header,
        !rest.contains('\n'),
        rest.len() > 0 ==> rest.last() != '\r',
    ensures
        spec_unwrap_gdrive_query(unlines(seq![header, name + seq![' '] + rest]), name) == name
            + seq![' '] + rest,
{
    let line = name + seq![' '] + rest;
    let ls = seq![header, line];
    assert(!line.contains('\n')) by {
        if line.contains('\n') {
            let k = choose|k: int| 0 <= k < line.len() && line[k] == '\n';
            if k < name.len() {
                assert(line[k] == name[k]);
                assert(is_whitespace(name[k]));
            } else if k > name.len() {
                assert(rest[k - name.len() - 1] == '\n');
            }
        }
    }
    assert(strip_cr(line) == line) by {
        if rest.len() > 0 {
            assert(line.last() == rest.last());
        } else {
            assert(line.last() == ' ');
        }
    }
    assert forall|i: int| 0 <= i < ls.len() implies !(#[trigger] ls[i]).contains('\n') && strip_cr(ls[i])
        == ls[i] by {
        if i == 0 {
            assert(ls[i] == header);
        } else {
            assert(ls[i] == line);
        }
    }
    lemma_lines_unlines(ls);
    assert(trim_end(name) == name) by {
        assert(!is_whitespace(name[name.len() - 1]));
    }
    assert(term_at(line, name, 0)) by {
        assert(line.subrange(0, name.len() as int) =~= name);
        assert(line[name.len() as int] == ' ');
    }
    assert(holds_term(ls[1], name));
}

/// Whether `term` stands at position `i` of `line` as a whole term.
fn term_at_chars(line: &Vec<char>, term: &Vec<char>, i: usize) -> (r: bool)
    requires
        i + term.len() < line.len(),
    ensures
        r == term_at(line@, term@, i as int),
{
    if i > 0 && !is_whitespace_char(line[i - 1]) {
        return false;
    }
    if line[i + term.len()] != ' ' {
        return false;
    }
    let m = term.len();
    let mut k: usize = 0;
    while k < m
        invariant
            k <= m,
            m == term.len(),
            i + m < line.len(),
            forall|q: int| 0 <= q < k ==> line@[i + q] == term@[q],
        decreases m - k,
    {
        if line[i + k] != term[k] {
            assert(line@.subrange(i as int, i + m)[k as int] != term@[k as int]);
            return false;
        }
        k = k + 1;
    }
    assert(line@.subrange(i as int, i + m) =~= term@);
    true
}

/// Whether `line` holds `term` as a whole term.
fn holds_term_chars(line: &Vec<char>, term: &Vec<char>) -> (r: bool)
    ensures
        r == holds_term(line@, term@),
{
    if term.len() >= line.len() {
        assert forall|j: int| !term_at(line@, term@, j) by {}
        return false;
    }
    let end = line.len() - term.len();
    let mut i: usize = 0;
    while i < end
        invariant
            end + term.len() == line.len(),
            forall|j: int| 0 <= j < i ==> !term_at(line@, term@, j),
        decreases line.len() - i,
    {
        if term_at_chars(line, term, i) {
            return true;
        }
        i = i + 1;
    }
    assert forall|j: int| !term_at(line@, term@, j) by {
        if 0 <= j && j + term@.len() < line@.len() {
            assert(j < i);
        }
    }
    false
}

/// Picks out of the output of `gdrive list` the first entry, after the
/// header line, whose line holds `search_string` (without its trailing
/// white space) as a whole term: at the start of the line or after white
/// space, and followed by a space, so that a name that merely contains the
/// search string does not match. Returns `""` when there is none.
pub fn unwrap_gdrive_query(cmd_output: String, search_string: &String) -> (r: String)
    ensures
        r@ == spec_unwrap_gdrive_query(cmd_output@, search_string@),
{
    let ls = lines_of(cmd_output.as_str());
    let ghost l = ls.deep_view();
    let term = trim_end_of(search_string.as_str());
    let tc = chars_of(term.as_str());
    let mut i: usize = 1;
    while i < ls.len()
        invariant
            1 <= i,
            l == ls.deep_view(),
            l == lines(cmd_output@),
            tc@ == search_term(search_string@),
            find_line_from(l, tc@, i as int) == find_line_from(l, tc@, 1),
        decreases ls.len() - i,
    {
        let lc = chars_of(ls[i].as_str());
        assert(lc@ == l[i as int]);
        if holds_term_chars(&lc, &tc) {
            return ls[i].clone();
        }
        i = i + 1;
    }
    String::new()
}

/// One entry of a `gdrive list` output: its id, name, type, size and
/// creation date, in the order of the columns, and whether such an entry
/// was found at all (`update`: the file exists on the drive and is to be
/// updated rather than uploaded anew).
#[derive(Debug)]
pub struct GdriveQuery {
    pub id: String,
    pub name: String,
    pub gtype: String,
    pub dob: String,
    pub age: String,
    pub update: bool,
}

/// A listing line splits into at least the five columns of an entry.
pub open spec fn has_query_fields(line: Seq<char>) -> bool {
    words(line).len() >= 5
}

/// The entry that a listing line describes: its first five words.
pub open spec fn is_entry_of(q: GdriveQuery, line: Seq<char>) -> bool {
    &&& q.id@ == words(line)[0]
    &&& q.name@ == words(line)[1]
    &&& q.gtype@ == words(line)[2]
    &&& q.dob@ == words(line)[3]
    &&& q.age@ == words(line)[4]
    &&& q.update
}

/// The entry read from a listing line gives back the columns that the line
/// was written from, with single spaces between them, when each column is
/// a non-empty run of non-white-space characters.
pub proof fn lemma_entry_of_columns(columns: Seq<Seq<char>>, q: GdriveQuery)
    requires
        columns.len() >= 5,
        forall|i: int| 0 <= i < columns.len() ==> (#[trigger] columns[i]).len() > 0,
        forall|i: int, k: int|
            0 <= i < columns.len() && 0 <= k < columns[i].len() ==> !is_whitespace(
                #[trigger] columns[i][k],
            ),
    ensures
        has_query_fields(join_with(columns, ' ')),
        is_entry_of(q, join_with(columns, ' ')) <==> {
            &&& q.id@ == columns[0]
            &&& q.name@ == columns[1]
            &&& q.gtype@ == columns[2]
            &&& q.dob@ == columns[3]
            &&& q.age@ == columns[4]
            &&& q.update
        },
{
    lemma_words_join(columns);
}

/// A looked-up entry is marked found (`update`: update rather than upload)
/// exactly when some line of the listing after its header holds the search
/// term.
pub proof fn lemma_query_found(cmd_output: Seq<char>, search: Seq<char>, q: GdriveQuery)
    requires
        spec_is_none(q, spec_unwrap_gdrive_query(cmd_output, search)),
    ensures
        q.update <==> exists|j: int|
            1 <= j < lines(cmd_output).len() && holds_term(
                #[trigger] lines(cmd_output)[j],
                search_term(search),
            ),
{
    lemma_unwrap_gdrive_query_found(cmd_output, search);
}

/// The record that stands for "no such entry".
pub open spec fn is_empty_entry(q: GdriveQuery) -> bool {
    &&& q.id@.len() == 0
    &&& q.name@.len() == 0
    &&& q.gtype@.len() == 0
    &&& q.dob@.len() == 0
    &&& q.age@.len() == 0
    &&& !q.update
}

/// The entry for `query` when it is a listing line, the empty entry when
/// it is empty.
pub open spec fn spec_is_none(q: GdriveQuery, query: Seq<char>) -> bool {
    if query.len() > 0 {
        is_entry_of(q, query)
    } else {
        is_empty_entry(q)
    }
}

impl GdriveQuery {
    /// Whether the entry is a folder.
    pub fn is_dir(&self) -> (r: bool)
        ensures
            r == (self.gtype@ == seq!['d', 'i', 'r']),
    {
        let dir = String::from_str("dir");
        proof {
            reveal_strlit("dir");
            assert(dir@ =~= seq!['d', 'i', 'r']);
        }
        self.gtype == dir
    }

    /// The entry that `query` describes, or the empty entry when `query` is
    /// empty (nothing was found).
    pub fn is_none(query: &String) -> (r: GdriveQuery)
        requires
            query@.len() == 0 || has_query_fields(query@),
        ensures
            spec_is_none(r, query@),
    {
        if !query.as_str().is_empty() {
            GdriveQuery::unwrap(query)
        } else {
            GdriveQuery {
                id: String::new(),
                name: String::new(),
                gtype: String::new(),
                dob: String::new(),
                age: String::new(),
                update: false,
            }
        }
    }

    /// The entry that a listing line describes: its first five
    /// white-space separated words, in column order.
    pub fn unwrap(result: &String) -> (r: GdriveQuery)
        requires
            has_query_fields(result@),
        ensures
            is_entry_of(r, result@),
    {
        let fields = words_of(result.as_str());
        assert(fields@[0]@ == words(result@)[0]);
        assert(fields@[1]@ == words(result@)[1]);
        assert(fields@[2]@ == words(result@)[2]);
        assert(fields@[3]@ == words(result@)[3]);
        assert(fields@[4]@ == words(result@)[4]);
        GdriveQuery {
            id: fields[0].clone(),
            name: fields[1].clone(),
            gtype: fields[2].clone(),
            dob: fields[3].clone(),
            age: fields[4].clone(),
            update: true,
        }
    }

    /// The entry named `search_string` in the output of
    /// `gdrive list --query "'<folder>' in parents"`, or the empty entry
    /// when the folder holds none of that name.
    pub fn query(cmd_output: String, search_string: &String) -> (r: GdriveQuery)
        requires
            ({
                let line = spec_unwrap_gdrive_query(cmd_output@, search_string@);
                line.len() == 0 || has_query_fields(line)
            }),
        ensures
            spec_is_none(r, spec_unwrap_gdrive_query(cmd_output@, search_string@)),
    {
        let query_result = unwrap_gdrive_query(cmd_output, search_string);
        GdriveQuery::is_none(&query_result)
    }
}

} // verus!
