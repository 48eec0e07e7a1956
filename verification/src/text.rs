//! Character-level text handling: the views of `&str` and `String` are
//! sequences of `char`, and each operation here is stated over them.

use vstd::prelude::*;
use vstd::std_specs::iter::IteratorSpec;

verus! {

/// Calls std's `String::push`. Trusted, as its documentation states, to
/// append `c` at the end of `s` and change nothing else.
#[verifier::external_body]
fn push_char(s: &mut String, c: char)
    ensures
        final(s)@ == old(s)@.push(c),
{
    s.push(c);
}

/// The characters of `s`, in order.
pub fn chars_of(s: &str) -> (r: Vec<char>)
    ensures
        r@ == s@,
{
    broadcast use vstd::string::group_string_axioms;
    let mut it = s.chars();
    let mut r: Vec<char> = Vec::new();
    loop
        invariant
            r@ + it.remaining() == s@,
            it.obeys_prophetic_iter_laws(),
            it.decrease() is Some,
        decreases it.decrease()->0,
    {
        match it.next() {
            Some(c) => {
                r.push(c);
            },
            None => {
                assert(r@ + it.remaining() == r@);
                return r;
            },
        }
    }
}

/// The characters `cs[from..to]` as a new `String`.
pub fn string_of(cs: &Vec<char>, from: usize, to: usize) -> (r: String)
    requires
        from <= to <= cs.len(),
    ensures
        r@ == cs@.subrange(from as int, to as int),
{
    let mut r = String::new();
    let mut i = from;
    while i < to
        invariant
            from <= i <= to <= cs.len(),
            r@ == cs@.subrange(from as int, i as int),
        decreases to - i,
    {
        push_char(&mut r, cs[i]);
        i = i + 1;
        assert(r@ =~= cs@.subrange(from as int, i as int));
    }
    r
}


/// The pieces of `s` between occurrences of `sep`, as `str::split` with a
/// single-character pattern yields them: one more piece than there are
/// separators, empty pieces included.
pub open spec fn split_on(s: Seq<char>, sep: char) -> Seq<Seq<char>>
    decreases s.len(),
{
    if s.len() == 0 {
        seq![Seq::empty()]
    } else {
        let p = split_on(s.drop_last(), sep);
        if s.last() == sep {
            p.push(Seq::empty())
        } else {
            p.update(p.len() - 1, p.last().push(s.last()))
        }
    }
}

/// There is always at least one piece.
pub proof fn lemma_split_on_len(s: Seq<char>, sep: char)
    ensures
        split_on(s, sep).len() >= 1,
    decreases s.len(),
{
    if s.len() > 0 {
        lemma_split_on_len(s.drop_last(), sep);
    }
}

/// The pieces `ps` written one after the other with `sep` between each two.
pub open spec fn join_with(ps: Seq<Seq<char>>, sep: char) -> Seq<char>
    decreases ps.len(),
{
    if ps.len() == 0 {
        Seq::empty()
    } else if ps.len() == 1 {
        ps[0]
    } else {
        join_with(ps.drop_last(), sep).push(sep) + ps.last()
    }
}

/// Splitting loses nothing: the pieces of `s`, joined back with the
/// separator, give `s` again, and no piece holds the separator.
pub proof fn lemma_split_join(s: Seq<char>, sep: char)
    ensures
        join_with(split_on(s, sep), sep) == s,
        forall|i: int|
            0 <= i < split_on(s, sep).len() ==> !(#[trigger] split_on(s, sep)[i]).contains(sep),
    decreases s.len(),
{
    if s.len() == 0 {
        assert(split_on(s, sep)[0] =~= Seq::<char>::empty());
        assert(s =~= Seq::<char>::empty());
    } else {
        let sd = s.drop_last();
        let c = s.last();
        let p = split_on(sd, sep);
        lemma_split_join(sd, sep);
        lemma_split_on_len(sd, sep);
        assert(sd.push(c) =~= s);
        if c == sep {
            let q = p.push(Seq::empty());
            assert(q.drop_last() =~= p);
            assert(join_with(q, sep) =~= s);
            assert forall|i: int| 0 <= i < q.len() implies !(#[trigger] q[i]).contains(sep) by {
                if i < p.len() {
                    assert(q[i] == p[i]);
                }
            }
        } else {
            let n = p.len();
            let q = p.update(n - 1, p[n - 1].push(c));
            if n >= 2 {
                assert(q.drop_last() =~= p.drop_last());
                assert(join_with(q, sep) =~= join_with(p, sep).push(c));
            } else {
                assert(join_with(q, sep) =~= join_with(p, sep).push(c));
            }
            assert forall|i: int| 0 <= i < q.len() implies !(#[trigger] q[i]).contains(sep) by {
                if i < n - 1 {
                    assert(q[i] == p[i]);
                } else {
                    assert(!p[n - 1].contains(sep));
                    if q[i].contains(sep) {
                        let k = choose|k: int| 0 <= k < q[i].len() && q[i][k] == sep;
                        if k < p[n - 1].len() {
                            assert(p[n - 1][k] == sep);
                        }
                    }
                }
            }
        }
    }
}

/// Appending text without the separator to `a` only lengthens its last
/// piece.
pub proof fn lemma_split_on_append(a: Seq<char>, l: Seq<char>, sep: char)
    requires
        !l.contains(sep),
    ensures
        split_on(a + l, sep) == split_on(a, sep).update(
            split_on(a, sep).len() - 1,
            split_on(a, sep).last() + l,
        ),
    decreases l.len(),
{
    lemma_split_on_len(a, sep);
    let p = split_on(a, sep);
    if l.len() == 0 {
        assert(a + l =~= a);
        assert(p.last() + l =~= p.last());
        assert(p.update(p.len() - 1, p.last() + l) =~= p);
    } else {
        let ld = l.drop_last();
        let c = l.last();
        assert(!ld.contains(sep)) by {
            if ld.contains(sep) {
                let k = choose|k: int| 0 <= k < ld.len() && ld[k] == sep;
                assert(l[k] == sep);
            }
        }
        assert(c != sep) by {
            assert(l[l.len() - 1] == c);
        }
        lemma_split_on_append(a, ld, sep);
        assert((a + l).drop_last() =~= a + ld);
        assert((a + l).last() == c);
        let q = split_on(a + ld, sep);
        assert(q == p.update(p.len() - 1, p.last() + ld));
        assert(q.last() + seq![c] =~= p.last() + l);
        assert(q.last().push(c) =~= p.last() + l);
        assert(q.update(q.len() - 1, q.last().push(c)) =~= p.update(p.len() - 1, p.last() + l));
    }
}

/// A separator at the end starts a new, empty piece.
pub proof fn lemma_split_on_push_sep(a: Seq<char>, sep: char)
    ensures
        split_on(a.push(sep), sep) == split_on(a, sep).push(Seq::empty()),
{
    assert(a.push(sep).drop_last() =~= a);
}

/// The pieces of `cs` between occurrences of `sep`.
pub fn split_chars(cs: &Vec<char>, sep: char) -> (r: Vec<String>)
    ensures
        r.deep_view() == split_on(cs@, sep),
{
    let mut done: Vec<String> = Vec::new();
    let mut start: usize = 0;
    let mut i: usize = 0;
    assert(cs@.take(0).len() == 0);
    assert(cs@.subrange(0, 0) =~= Seq::<char>::empty());
    assert(done.deep_view().push(cs@.subrange(0, 0)) =~= split_on(cs@.take(0), sep));
    while i < cs.len()
        invariant
            start <= i <= cs.len(),
            done.deep_view().push(cs@.subrange(start as int, i as int)) == split_on(
                cs@.take(i as int),
                sep,
            ),
        decreases cs.len() - i,
    {
        let ghost before = done.deep_view();
        let ghost old_start = start;
        proof {
            lemma_split_on_len(cs@.take(i as int), sep);
            assert(cs@.take(i + 1).drop_last() =~= cs@.take(i as int));
            assert(cs@.take(i + 1).last() == cs@[i as int]);
        }
        if cs[i] == sep {
            let piece = string_of(cs, start, i);
            done.push(piece);
            start = i + 1;
            assert(done.deep_view() =~= before.push(piece@));
            assert(cs@.subrange(start as int, i + 1) =~= Seq::<char>::empty());
        } else {
            assert(cs@.subrange(old_start as int, i + 1) =~= cs@.subrange(
                old_start as int,
                i as int,
            ).push(cs@[i as int]));
        }
        i = i + 1;
        assert(done.deep_view().push(cs@.subrange(start as int, i as int)) =~= split_on(
            cs@.take(i as int),
            sep,
        ));
    }
    let last = string_of(cs, start, cs.len());
    let ghost before = done.deep_view();
    done.push(last);
    assert(done.deep_view() =~= before.push(last@));
    assert(cs@.take(cs.len() as int) =~= cs@);
    done
}


/// A line without the carriage return that ended it, if any.
pub open spec fn strip_cr(l: Seq<char>) -> Seq<char> {
    if l.len() > 0 && l.last() == '\r' {
        l.drop_last()
    } else {
        l
    }
}

/// The lines of `s`, as `str::lines` yields them: split at `'\n'`, a `'\r'`
/// just before a `'\n'` dropped, and no empty line after a final `'\n'`.
pub open spec fn lines(s: Seq<char>) -> Seq<Seq<char>> {
    let p = split_on(s, '\n');
    let body = p.drop_last().map_values(|l: Seq<char>| strip_cr(l));
    if p.last().len() == 0 {
        body
    } else {
        body.push(p.last())
    }
}

/// The lines of `s`.
pub fn lines_of(s: &str) -> (r: Vec<String>)
    ensures
        r.deep_view() == lines(s@),
{
    let cs = chars_of(s);
    let pieces = split_chars(&cs, '\n');
    proof {
        lemma_split_on_len(s@, '\n');
    }
    let ghost p = pieces.deep_view();
    let n = pieces.len();
    let mut r: Vec<String> = Vec::new();
    let mut i: usize = 0;
    while i + 1 < n
        invariant
            n == pieces.len(),
            p == pieces.deep_view(),
            p == split_on(s@, '\n'),
            1 <= n,
            i + 1 <= n,
            r.deep_view() =~= p.take(i as int).map_values(|l: Seq<char>| strip_cr(l)),
        decreases n - i,
    {
        let pc = chars_of(pieces[i].as_str());
        let end = if pc.len() > 0 && pc[pc.len() - 1] == '\r' {
            pc.len() - 1
        } else {
            pc.len()
        };
        let line = string_of(&pc, 0, end);
        let ghost before = r.deep_view();
        assert(pc@ == p[i as int]);
        assert(line@ =~= strip_cr(p[i as int]));
        r.push(line);
        assert(r.deep_view() =~= before.push(line@));
        assert(p.take(i + 1) =~= p.take(i as int).push(p[i as int]));
        i = i + 1;
    }
    assert(p.take(i as int) =~= p.drop_last());
    let last = &pieces[n - 1];
    assert(last@ == p.last());
    if !last.as_str().is_empty() {
        let ghost before = r.deep_view();
        r.push(last.clone());
        assert(r.deep_view() =~= before.push(p.last()));
    }
    r
}

/// `char::is_whitespace`: the characters with the Unicode `White_Space`
/// property.
pub open spec fn is_whitespace(c: char) -> bool {
    ||| ('\u{9}' <= c && c <= '\u{d}')
    ||| c == ' '
    ||| c == '\u{85}'
    ||| c == '\u{a0}'
    ||| c == '\u{1680}'
    ||| ('\u{2000}' <= c && c <= '\u{200a}')
    ||| c == '\u{2028}'
    ||| c == '\u{2029}'
    ||| c == '\u{202f}'
    ||| c == '\u{205f}'
    ||| c == '\u{3000}'
}

/// Whether `c` is a Unicode white-space character.
pub fn is_whitespace_char(c: char) -> (r: bool)
    ensures
        r == is_whitespace(c),
{
    ('\u{9}' <= c && c <= '\u{d}') || c == ' ' || c == '\u{85}' || c == '\u{a0}' || c
        == '\u{1680}' || ('\u{2000}' <= c && c <= '\u{200a}') || c == '\u{2028}' || c
        == '\u{2029}' || c == '\u{202f}' || c == '\u{205f}' || c == '\u{3000}'
}

/// The maximal runs of non-white-space characters of `s`, in order, as
/// `str::split_whitespace` yields them.
pub open spec fn words(s: Seq<char>) -> Seq<Seq<char>>
    decreases s.len(),
{
    if s.len() == 0 {
        seq![]
    } else {
        let p = words(s.drop_last());
        let c = s.last();
        if is_whitespace(c) {
            p
        } else if s.len() >= 2 && !is_whitespace(s[s.len() - 2]) {
            p.update(p.len() - 1, p.last().push(c))
        } else {
            p.push(seq![c])
        }
    }
}

/// A sequence that ends in a non-white-space character has a last word,
/// and that word ends the sequence.
pub proof fn lemma_words_last(s: Seq<char>)
    requires
        s.len() > 0,
        !is_whitespace(s.last()),
    ensures
        words(s).len() > 0,
    decreases s.len(),
{
    if s.len() >= 2 && !is_whitespace(s[s.len() - 2]) {
        assert(s.drop_last().last() == s[s.len() - 2]);
        lemma_words_last(s.drop_last());
    }
}

/// White space between two texts separates their words: the words of the
/// whole are those of the first followed by those of the second.
pub proof fn lemma_words_concat(a: Seq<char>, w: char, b: Seq<char>)
    requires
        is_whitespace(w),
    ensures
        words(a.push(w) + b) == words(a) + words(b),
    decreases b.len(),
{
    let aw = a.push(w);
    if b.len() == 0 {
        assert(aw + b =~= aw);
        assert(aw.drop_last() =~= a);
        assert(words(a) + words(b) =~= words(a));
    } else {
        let bd = b.drop_last();
        let c = b.last();
        let s = aw + b;
        lemma_words_concat(a, w, bd);
        assert(s.drop_last() =~= aw + bd);
        assert(s.last() == c);
        let p = words(aw + bd);
        assert(p == words(a) + words(bd));
        if is_whitespace(c) {
        } else {
            if b.len() >= 2 {
                assert(s[s.len() - 2] == b[b.len() - 2]);
                assert(bd.last() == b[b.len() - 2]);
            } else {
                assert(s[s.len() - 2] == w);
            }
            if b.len() >= 2 && !is_whitespace(b[b.len() - 2]) {
                lemma_words_last(bd);
                let q = words(bd);
                assert(p.last() == q.last());
                assert(p.update(p.len() - 1, p.last().push(c)) =~= words(a) + q.update(
                    q.len() - 1,
                    q.last().push(c),
                ));
            } else {
                assert(p.push(seq![c]) =~= words(a) + words(bd).push(seq![c]));
            }
        }
    }
}

/// A non-empty run of non-white-space characters is a single word.
pub proof fn lemma_words_single(f: Seq<char>)
    requires
        f.len() > 0,
        forall|i: int| 0 <= i < f.len() ==> !is_whitespace(#[trigger] f[i]),
    ensures
        words(f) == seq![f],
    decreases f.len(),
{
    let fd = f.drop_last();
    if f.len() == 1 {
        assert(fd.len() == 0);
        assert(words(fd) =~= Seq::<Seq<char>>::empty());
        assert(seq![f.last()] =~= f);
        assert(words(f) =~= Seq::<Seq<char>>::empty().push(seq![f.last()]));
        assert(words(f) =~= seq![f]);
    } else {
        lemma_words_single(fd);
        assert(f[f.len() - 2] == fd[fd.len() - 1]);
        assert(!is_whitespace(f[f.len() - 1]));
        assert(fd.push(f.last()) =~= f);
        assert(seq![fd].update(0, fd.push(f.last())) =~= seq![f]);
        assert(seq![fd].last() == fd);
        assert(words(f) =~= seq![f]);
    }
}

/// Words written with single spaces between them read back as the same
/// words, when each is a non-empty run of non-white-space characters.
pub proof fn lemma_words_join(fields: Seq<Seq<char>>)
    requires
        fields.len() > 0,
        forall|i: int| 0 <= i < fields.len() ==> (#[trigger] fields[i]).len() > 0,
        forall|i: int, k: int|
            0 <= i < fields.len() && 0 <= k < fields[i].len() ==> !is_whitespace(
                #[trigger] fields[i][k],
            ),
    ensures
        words(join_with(fields, ' ')) == fields,
    decreases fields.len(),
{
    let last = fields.last();
    assert(last == fields[fields.len() - 1]);
    lemma_words_single(last);
    if fields.len() == 1 {
        assert(seq![fields[0]] =~= fields);
    } else {
        let fd = fields.drop_last();
        assert forall|i: int| 0 <= i < fd.len() implies (#[trigger] fd[i]).len() > 0 by {
            assert(fd[i] == fields[i]);
        }
        assert forall|i: int, k: int|
            0 <= i < fd.len() && 0 <= k < fd[i].len() implies !is_whitespace(
                #[trigger] fd[i][k],
            ) by {
            assert(fd[i] == fields[i]);
        }
        lemma_words_join(fd);
        lemma_words_concat(join_with(fd, ' '), ' ', last);
        assert(fd + seq![last] =~= fields);
    }
}

/// The white-space separated words of `s`.
pub fn words_of(s: &str) -> (r: Vec<String>)
    ensures
        r.deep_view() == words(s@),
{
    let cs = chars_of(s);
    let mut done: Vec<String> = Vec::new();
    let mut start: usize = 0;
    let mut i: usize = 0;
    assert(cs@.take(0).len() == 0);
    while i < cs.len()
        invariant
            start <= i <= cs.len(),
            cs@ == s@,
            (i > 0 && !is_whitespace(cs@[i - 1])) ==> start < i && done.deep_view().push(
                cs@.subrange(start as int, i as int),
            ) == words(cs@.take(i as int)),
            !(i > 0 && !is_whitespace(cs@[i - 1])) ==> done.deep_view() == words(
                cs@.take(i as int),
            ),
        decreases cs.len() - i,
    {
        let ghost before = done.deep_view();
        let ghost t = cs@.take(i as int);
        let ghost t1 = cs@.take(i + 1);
        proof {
            assert(t1.drop_last() =~= t);
            assert(t1.last() == cs@[i as int]);
            if i > 0 {
                assert(t1[t1.len() - 2] == cs@[i - 1]);
            }
        }
        let in_word = i > 0 && !is_whitespace_char(cs[i - 1]);
        if is_whitespace_char(cs[i]) {
            if in_word {
                let w = string_of(&cs, start, i);
                done.push(w);
                assert(done.deep_view() =~= before.push(w@));
            }
        } else {
            if in_word {
                proof {
                    assert(cs@.subrange(start as int, i + 1) =~= cs@.subrange(
                        start as int,
                        i as int,
                    ).push(cs@[i as int]));
                    assert(before.push(cs@.subrange(start as int, i + 1)) =~= words(t).update(
                        words(t).len() - 1,
                        words(t).last().push(cs@[i as int]),
                    ));
                }
            } else {
                start = i;
                proof {
                    assert(cs@.subrange(start as int, i + 1) =~= seq![cs@[i as int]]);
                }
            }
        }
        i = i + 1;
    }
    if i > 0 && !is_whitespace_char(cs[i - 1]) {
        let ghost before = done.deep_view();
        let w = string_of(&cs, start, i);
        done.push(w);
        assert(done.deep_view() =~= before.push(w@));
    }
    assert(cs@.take(i as int) =~= cs@);
    done
}

/// `s` without its trailing white space, as `str::trim_end` leaves it.
pub open spec fn trim_end(s: Seq<char>) -> Seq<char>
    decreases s.len(),
{
    if s.len() > 0 && is_whitespace(s.last()) {
        trim_end(s.drop_last())
    } else {
        s
    }
}

/// `s` without its trailing white space.
pub fn trim_end_of(s: &str) -> (r: String)
    ensures
        r@ == trim_end(s@),
{
    let cs = chars_of(s);
    let mut k = cs.len();
    assert(cs@.take(k as int) =~= cs@);
    while k > 0 && is_whitespace_char(cs[k - 1])
        invariant
            k <= cs.len(),
            cs@ == s@,
            trim_end(cs@.take(k as int)) == trim_end(s@),
        decreases k,
    {
        assert(cs@.take(k as int).drop_last() =~= cs@.take(k - 1));
        k = k - 1;
    }
    string_of(&cs, 0, k)
}

/// `t` occurs in `s` starting at position `i`.
pub open spec fn occurs_at(s: Seq<char>, t: Seq<char>, i: int) -> bool {
    0 <= i && i + t.len() <= s.len() && s.subrange(i, i + t.len()) == t
}

/// `t` occurs somewhere in `s`, as `str::contains` with a string pattern
/// finds it (the empty pattern occurs in every string).
pub open spec fn contains(s: Seq<char>, t: Seq<char>) -> bool {
    exists|i: int| occurs_at(s, t, i)
}

/// Whether `needle` occurs in `hay`.
pub fn contains_chars(hay: &Vec<char>, needle: &Vec<char>) -> (r: bool)
    ensures
        r == contains(hay@, needle@),
{
    let n = hay.len();
    let m = needle.len();
    if m > n {
        assert forall|i: int| !occurs_at(hay@, needle@, i) by {}
        return false;
    }
    let mut i: usize = 0;
    while i <= n - m
        invariant
            m <= n,
            n == hay.len(),
            m == needle.len(),
            forall|j: int| 0 <= j < i ==> !occurs_at(hay@, needle@, j),
        decreases n - m + 1 - i,
    {
        let mut k: usize = 0;
        while k < m && hay[i + k] == needle[k]
            invariant
                k <= m,
                i + m <= n,
                m == needle.len(),
                n == hay.len(),
                forall|q: int| 0 <= q < k ==> hay@[i + q] == needle@[q],
            decreases m - k,
        {
            k = k + 1;
        }
        if k == m {
            assert(hay@.subrange(i as int, i + m) =~= needle@);
            assert(occurs_at(hay@, needle@, i as int));
            return true;
        }
        assert(hay@.subrange(i as int, i + m)[k as int] != needle@[k as int]);
        i = i + 1;
    }
    assert forall|j: int| !occurs_at(hay@, needle@, j) by {
        if 0 <= j && j + m <= n {
            assert(j < i);
        }
    }
    false
}

/// Whether `needle` occurs in `hay`.
pub fn str_contains(hay: &str, needle: &str) -> (r: bool)
    ensures
        r == contains(hay@, needle@),
{
    let h = chars_of(hay);
    let n = chars_of(needle);
    contains_chars(&h, &n)
}

} // verus!
