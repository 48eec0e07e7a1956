//! Adding a course to the tool: the line for its configuration file and the
//! edit to the source of the course table.

use vstd::prelude::*;
use crate::text::{
    lemma_split_join, lemma_split_on_append, lemma_split_on_len, lemma_split_on_push_sep, lines,
    lines_of, split_on, strip_cr,
};

verus! {

/// The line of the course table, counted from zero, after which a new
/// entry is inserted.
pub const APPEND_NUM: usize = 33;

/// `<key>=<value>`: the line added to the configuration file.
pub fn config_addendum(key: &str, value: &str) -> (r: String)
    ensures
        r@ == key@ + "="@ + value@,
{
    let mut line = String::from_str(key);
    line.append("=");
    line.append(value);
    line
}

/// `sudo echo "<addendum>" >> <config_file>`: appends the line to the
/// configuration file.
pub fn append_config_command(config_addendum: &str, config_file: &str) -> (r: String)
    ensures
        r@ == "sudo echo \""@ + config_addendum@ + "\" >> "@ + config_file@,
{
    let mut cmd = String::from_str("sudo echo \"");
    cmd.append(config_addendum);
    cmd.append("\" >> ");
    cmd.append(config_file);
    cmd
}

/// The entry of the course table for `key`: the course `key` maps to the
/// environment variable `UPLOAD<key>`.
pub open spec fn spec_rust_addendum(key: Seq<char>) -> Seq<char> {
    "        (\""@ + key + "\", env::var(\"UPLOAD"@ + key + "\").unwrap()),"@
}

/// The source line of the course-table entry for `key`.
pub fn rust_addendum(key: &str) -> (r: String)
    ensures
        r@ == spec_rust_addendum(key@),
{
    let mut line = String::from_str("        (\"");
    line.append(key);
    line.append("\", env::var(\"UPLOAD");
    line.append(key);
    line.append("\").unwrap()),");
    line
}

/// The text of `ls` written one line at a time, each followed by `'\n'`.
pub open spec fn unlines(ls: Seq<Seq<char>>) -> Seq<char>
    decreases ls.len(),
{
    if ls.len() == 0 {
        Seq::empty()
    } else {
        unlines(ls.drop_last()) + ls.last().push('\n')
    }
}

/// The source text after the edit: its lines, with the entry for `key`
/// added after line `APPEND_NUM`, each written back followed by `'\n'`.
pub open spec fn spec_append_envs(key: Seq<char>, contents: Seq<char>) -> Seq<char> {
    let ls = lines(contents);
    unlines(ls.update(APPEND_NUM as int, ls[APPEND_NUM as int] + seq!['\n'] + spec_rust_addendum(key)))
}

/// The source text `contents` of the course table with an entry for the
/// new course `key` added after line `APPEND_NUM`, as it is written back.
pub fn append_envs(key: &str, contents: &str) -> (r: String)
    requires
        lines(contents@).len() > APPEND_NUM,
    ensures
        r@ == spec_append_envs(key@, contents@),
{
    let content_new_lines = lines_of(contents);
    let rust_line = rust_addendum(key);
    let ghost ls = content_new_lines.deep_view();
    let ghost updated = ls.update(
        APPEND_NUM as int,
        ls[APPEND_NUM as int] + seq!['\n'] + spec_rust_addendum(key@),
    );
    proof {
        reveal_strlit("\n");
    }
    let mut out = String::new();
    let mut i: usize = 0;
    assert(updated.take(0).len() == 0);
    while i < content_new_lines.len()
        invariant
            i <= content_new_lines.len(),
            ls == content_new_lines.deep_view(),
            ls == lines(contents@),
            ls.len() > APPEND_NUM,
            rust_line@ == spec_rust_addendum(key@),
            "\n"@ == seq!['\n'],
            updated == ls.update(
                APPEND_NUM as int,
                ls[APPEND_NUM as int] + seq!['\n'] + spec_rust_addendum(key@),
            ),
            out@ == unlines(updated.take(i as int)),
        decreases content_new_lines.len() - i,
    {
        let ghost before = out@;
        out.append(content_new_lines[i].as_str());
        if i == APPEND_NUM {
            out.append("\n");
            out.append(rust_line.as_str());
        }
        out.append("\n");
        assert(content_new_lines@[i as int]@ == ls[i as int]);
        assert(updated.take(i + 1).drop_last() =~= updated.take(i as int));
        assert(out@ =~= before + updated[i as int].push('\n'));
        i = i + 1;
    }
    assert(updated.take(i as int) =~= updated);
    out
}

/// Written text is split again at the ends of the lines that made it.
proof fn lemma_split_unlines(ls: Seq<Seq<char>>)
    requires
        forall|i: int| 0 <= i < ls.len() ==> !(#[trigger] ls[i]).contains('\n'),
    ensures
        split_on(unlines(ls), '\n') == ls.push(Seq::empty()),
    decreases ls.len(),
{
    if ls.len() == 0 {
        assert(unlines(ls) =~= Seq::<char>::empty());
        assert(ls.push(Seq::empty()) =~= seq![Seq::<char>::empty()]);
    } else {
        let ld = ls.drop_last();
        let l = ls.last();
        assert forall|i: int| 0 <= i < ld.len() implies !(#[trigger] ld[i]).contains('\n') by {
            assert(ld[i] == ls[i]);
        }
        assert(!l.contains('\n')) by {
            assert(l == ls[ls.len() - 1]);
        }
        lemma_split_unlines(ld);
        assert(unlines(ls) =~= (unlines(ld) + l).push('\n'));
        lemma_split_on_push_sep(unlines(ld) + l, '\n');
        lemma_split_on_append(unlines(ld), l, '\n');
        assert(Seq::<char>::empty() + l =~= l);
        assert(ld.push(Seq::empty()).update(ld.len() as int, Seq::<char>::empty() + l) =~= ls);
    }
}

/// Text written one line at a time reads back as the same lines, when no
/// line holds a line break or ends in a carriage return.
pub proof fn lemma_lines_unlines(ls: Seq<Seq<char>>)
    requires
        forall|i: int| 0 <= i < ls.len() ==> !(#[trigger] ls[i]).contains('\n'),
        forall|i: int| 0 <= i < ls.len() ==> strip_cr(#[trigger] ls[i]) == ls[i],
    ensures
        lines(unlines(ls)) == ls,
{
    lemma_split_unlines(ls);
    let p = ls.push(Seq::empty());
    assert(p.drop_last() =~= ls);
    assert(p.drop_last().map_values(|l: Seq<char>| strip_cr(l)) =~= ls);
}

/// Writing two lists of lines one after the other.
proof fn lemma_unlines_concat(a: Seq<Seq<char>>, b: Seq<Seq<char>>)
    ensures
        unlines(a + b) == unlines(a) + unlines(b),
    decreases b.len(),
{
    if b.len() == 0 {
        assert(a + b =~= a);
        assert(unlines(a) + unlines(b) =~= unlines(a));
    } else {
        assert((a + b).drop_last() =~= a + b.drop_last());
        assert((a + b).last() == b.last());
        lemma_unlines_concat(a, b.drop_last());
        assert(unlines(a + b) =~= unlines(a) + unlines(b));
    }
}

/// No line holds a line break.
proof fn lemma_lines_no_newline(s: Seq<char>)
    ensures
        forall|i: int| 0 <= i < lines(s).len() ==> !(#[trigger] lines(s)[i]).contains('\n'),
{
    let p = split_on(s, '\n');
    lemma_split_join(s, '\n');
    lemma_split_on_len(s, '\n');
    let ls = lines(s);
    assert forall|i: int| 0 <= i < ls.len() implies !(#[trigger] ls[i]).contains('\n') by {
        assert(!p[i].contains('\n'));
        if i < p.len() - 1 {
            assert(ls[i] == strip_cr(p[i]));
            if strip_cr(p[i]).contains('\n') {
                let k = choose|k: int| 0 <= k < strip_cr(p[i]).len() && strip_cr(p[i])[k] == '\n';
                assert(p[i][k] == '\n');
            }
        } else {
            assert(ls[i] == p.last());
        }
    }
}

/// Neither part holds `c`, so neither does the whole.
proof fn lemma_concat_lacks(a: Seq<char>, b: Seq<char>, c: char)
    requires
        !a.contains(c),
        !b.contains(c),
    ensures
        !(a + b).contains(c),
{
    if (a + b).contains(c) {
        let k = choose|k: int| 0 <= k < (a + b).len() && (a + b)[k] == c;
        if k < a.len() {
            assert(a[k] == c);
        } else {
            assert(b[k - a.len()] == c);
        }
    }
}

/// The entry line of a course is a single line: it holds no line break
/// when the key holds none, and it ends in a comma.
proof fn lemma_rust_addendum_one_line(key: Seq<char>)
    requires
        !key.contains('\n'),
    ensures
        !spec_rust_addendum(key).contains('\n'),
        strip_cr(spec_rust_addendum(key)) == spec_rust_addendum(key),
{
    reveal_strlit("        (\"");
    reveal_strlit("\", env::var(\"UPLOAD");
    reveal_strlit("\").unwrap()),");
    let l1 = "        (\""@;
    let l2 = "\", env::var(\"UPLOAD"@;
    let l3 = "\").unwrap()),"@;
    assert(!l1.contains('\n')) by {
        assert(forall|k: int| 0 <= k < l1.len() ==> l1[k] != '\n');
    }
    assert(!l2.contains('\n')) by {
        assert(forall|k: int| 0 <= k < l2.len() ==> l2[k] != '\n');
    }
    assert(!l3.contains('\n')) by {
        assert(forall|k: int| 0 <= k < l3.len() ==> l3[k] != '\n');
    }
    lemma_concat_lacks(l1, key, '\n');
    lemma_concat_lacks(l1 + key, l2, '\n');
    lemma_concat_lacks(l1 + key + l2, key, '\n');
    lemma_concat_lacks(l1 + key + l2 + key, l3, '\n');
    let add = spec_rust_addendum(key);
    assert(add.last() == l3.last());
    assert(l3.last() == ',');
}

/// Adding a course changes the lines of the table source in one way only:
/// the new entry stands as a line of its own right after line
/// `APPEND_NUM`, and every other line reads back as before. This holds when
/// the key holds no line break and no line of the source ends in a
/// carriage return that the line splitting would drop when read back.
pub proof fn lemma_append_envs_lines(key: Seq<char>, contents: Seq<char>)
    requires
        lines(contents).len() > APPEND_NUM,
        !key.contains('\n'),
        forall|i: int|
            0 <= i < lines(contents).len() ==> strip_cr(#[trigger] lines(contents)[i])
                == lines(contents)[i],
    ensures
        lines(spec_append_envs(key, contents)) == lines(contents).insert(
            APPEND_NUM + 1,
            spec_rust_addendum(key),
        ),
{
    let ls = lines(contents);
    let k = APPEND_NUM as int;
    let add = spec_rust_addendum(key);
    let updated = ls.update(k, ls[k] + seq!['\n'] + add);
    let inserted = ls.insert(k + 1, add);
    lemma_lines_no_newline(contents);
    lemma_rust_addendum_one_line(key);
    assert(updated =~= ls.take(k) + seq![ls[k] + seq!['\n'] + add] + ls.skip(k + 1));
    assert(inserted =~= ls.take(k) + seq![ls[k], add] + ls.skip(k + 1));
    lemma_unlines_concat(ls.take(k) + seq![ls[k] + seq!['\n'] + add], ls.skip(k + 1));
    lemma_unlines_concat(ls.take(k), seq![ls[k] + seq!['\n'] + add]);
    lemma_unlines_concat(ls.take(k) + seq![ls[k], add], ls.skip(k + 1));
    lemma_unlines_concat(ls.take(k), seq![ls[k], add]);
    assert(seq![ls[k], add].drop_last() =~= seq![ls[k]]);
    assert(seq![ls[k]].drop_last() =~= Seq::<Seq<char>>::empty());
    assert(seq![ls[k] + seq!['\n'] + add].drop_last() =~= Seq::<Seq<char>>::empty());
    assert(unlines(Seq::<Seq<char>>::empty()) =~= Seq::<char>::empty());
    assert(seq![ls[k]].last() == ls[k]);
    assert(unlines(seq![ls[k]]) =~= Seq::<char>::empty() + ls[k].push('\n'));
    assert(unlines(seq![ls[k]]) =~= ls[k].push('\n'));
    assert(unlines(seq![ls[k], add]) =~= ls[k].push('\n') + add.push('\n'));
    assert(seq![ls[k] + seq!['\n'] + add].last() == ls[k] + seq!['\n'] + add);
    assert(seq![ls[k], add].last() == add);
    assert(unlines(seq![ls[k] + seq!['\n'] + add]) =~= (ls[k] + seq!['\n'] + add).push('\n'));
    assert(unlines(seq![ls[k] + seq!['\n'] + add]) =~= unlines(seq![ls[k], add]));
    assert(unlines(updated) == unlines(inserted));
    assert forall|i: int| 0 <= i < inserted.len() implies !(#[trigger] inserted[i]).contains('\n')
        && strip_cr(inserted[i]) == inserted[i] by {
        if i < k + 1 {
            assert(inserted[i] == ls[i]);
        } else if i > k + 1 {
            assert(inserted[i] == ls[i - 1]);
        }
    }
    lemma_lines_unlines(inserted);
}

/// `cd <dir> && ./update `: rebuilds the tool after its source changed.
pub fn update_command(dir: &str) -> (r: String)
    ensures
        r@ == "cd "@ + dir@ + " && ./update "@,
{
    let mut cmd = String::from_str("cd ");
    cmd.append(dir);
    cmd.append(" && ./update ");
    cmd
}

} // verus!
