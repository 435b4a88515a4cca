//! Character-level text helpers: splitting text into lines and joining lines
//! back together, lexicographic comparison, file-name stems, and path
//! prefixes.

use vstd::prelude::*;

verus! {

/// Relies on `String::push` from std: appends the given character at the end
/// of the string.
#[verifier::external_body]
pub fn push_char(s: &mut String, c: char)
    ensures
        final(s)@ == old(s)@.push(c),
{
    s.push(c);
}

/// The views of a sequence of strings.
pub open spec fn line_views(ls: Seq<String>) -> Seq<Seq<char>> {
    ls.map_values(|l: String| l@)
}

/// The lines of a text: the maximal runs of characters between newline
/// characters. A text always has at least one line; a trailing newline yields
/// a final empty line.
pub open spec fn spec_lines(s: Seq<char>) -> Seq<Seq<char>>
    decreases s.len(),
{
    if s.len() == 0 {
        seq![Seq::<char>::empty()]
    } else if s[0] == '\n' {
        seq![Seq::<char>::empty()] + spec_lines(s.drop_first())
    } else {
        let rest = spec_lines(s.drop_first());
        seq![seq![s[0]] + rest[0]] + rest.drop_first()
    }
}

pub proof fn lemma_lines_len_pos(s: Seq<char>)
    ensures
        spec_lines(s).len() >= 1,
    decreases s.len(),
{
    if s.len() != 0 {
        lemma_lines_len_pos(s.drop_first());
    }
}

/// Splitting a text whose first newline stands at `i` yields the prefix
/// before `i` as the first line, followed by the lines of the remainder.
proof fn lemma_lines_split(s: Seq<char>, i: int)
    requires
        0 <= i < s.len(),
        s[i] == '\n',
        forall|j: int| 0 <= j < i ==> s[j] != '\n',
    ensures
        spec_lines(s) == seq![s.subrange(0, i)] + spec_lines(s.subrange(i + 1, s.len() as int)),
    decreases i,
{
    if i == 0 {
        assert(s.subrange(0, 0) =~= Seq::<char>::empty());
        assert(s.drop_first() =~= s.subrange(1, s.len() as int));
        assert(spec_lines(s) =~= seq![s.subrange(0, 0)] + spec_lines(
            s.subrange(1, s.len() as int),
        ));
    } else {
        let s1 = s.drop_first();
        assert(s1[i - 1] == '\n');
        lemma_lines_split(s1, i - 1);
        lemma_lines_len_pos(s1.subrange(i, s1.len() as int));
        let rest = spec_lines(s1);
        assert(rest[0] == s1.subrange(0, i - 1));
        assert(rest.drop_first() =~= spec_lines(s1.subrange(i, s1.len() as int)));
        assert(s1.subrange(i, s1.len() as int) =~= s.subrange(i + 1, s.len() as int));
        assert(seq![s[0]] + s1.subrange(0, i - 1) =~= s.subrange(0, i));
        assert(spec_lines(s) =~= seq![s.subrange(0, i)] + spec_lines(
            s.subrange(i + 1, s.len() as int),
        ));
    }
}

/// A text without a newline is a single line.
proof fn lemma_lines_no_nl(s: Seq<char>)
    requires
        forall|j: int| 0 <= j < s.len() ==> s[j] != '\n',
    ensures
        spec_lines(s) == seq![s],
    decreases s.len(),
{
    if s.len() == 0 {
        assert(s =~= Seq::<char>::empty());
        assert(spec_lines(s) =~= seq![s]);
    } else {
        let s1 = s.drop_first();
        lemma_lines_no_nl(s1);
        assert(seq![s[0]] + s1 =~= s);
        assert(spec_lines(s) =~= seq![s]);
    }
}

/// Splits a text into its lines.
pub fn split_lines(s: &str) -> (r: Vec<String>)
    ensures
        line_views(r@) == spec_lines(s@),
{
    let n = s.unicode_len();
    let mut lines: Vec<String> = Vec::new();
    let mut start: usize = 0;
    let mut i: usize = 0;
    proof {
        assert(s@.subrange(0, n as int) =~= s@);
        assert(line_views(lines@) =~= Seq::<Seq<char>>::empty());
        assert(line_views(lines@) + spec_lines(s@) =~= spec_lines(s@));
    }
    while i < n
        invariant
            start <= i <= n,
            n == s@.len(),
            forall|j: int| start <= j < i ==> s@[j] != '\n',
            spec_lines(s@) == line_views(lines@) + spec_lines(s@.subrange(start as int, n as int)),
        decreases n - i,
    {
        if s.get_char(i) == '\n' {
            let line = String::from_str(s.substring_char(start, i));
            proof {
                let ghost tail = s@.subrange(start as int, n as int);
                lemma_lines_split(tail, i - start);
                assert(tail.subrange(0, i - start) =~= s@.subrange(start as int, i as int));
                assert(tail.subrange(i - start + 1, tail.len() as int) =~= s@.subrange(
                    i + 1,
                    n as int,
                ));
                assert(line_views(lines@.push(line)) =~= line_views(lines@).push(line@));
                assert(line_views(lines@.push(line)) + spec_lines(s@.subrange(i + 1, n as int))
                    =~= line_views(lines@) + spec_lines(tail));
            }
            lines.push(line);
            start = i + 1;
        }
        i += 1;
    }
    let last = String::from_str(s.substring_char(start, n));
    proof {
        lemma_lines_no_nl(s@.subrange(start as int, n as int));
        assert(line_views(lines@.push(last)) =~= line_views(lines@).push(last@));
        assert(line_views(lines@.push(last)) =~= line_views(lines@) + spec_lines(
            s@.subrange(start as int, n as int),
        ));
    }
    lines.push(last);
    lines
}

/// Strict lexicographic order on texts by code point; for UTF-8 encoded
/// strings this coincides with byte order.
pub open spec fn lex_lt(a: Seq<char>, b: Seq<char>) -> bool
    decreases a.len(),
{
    if b.len() == 0 {
        false
    } else if a.len() == 0 {
        true
    } else if a[0] == b[0] {
        lex_lt(a.drop_first(), b.drop_first())
    } else {
        (a[0] as u32) < (b[0] as u32)
    }
}

/// Any two texts are ordered or equal.
pub proof fn lemma_lex_trichotomy(a: Seq<char>, b: Seq<char>)
    ensures
        lex_lt(a, b) || lex_lt(b, a) || a == b,
    decreases a.len(),
{
    if a.len() > 0 && b.len() > 0 && a[0] != b[0] {
        vstd::utf8::char_u32_cast(a[0], a[0] as u32);
        vstd::utf8::char_u32_cast(b[0], b[0] as u32);
        assert((a[0] as u32) != (b[0] as u32));
    }
    if a.len() == 0 && b.len() == 0 {
        assert(a =~= b);
    } else if a.len() > 0 && b.len() > 0 && a[0] == b[0] {
        lemma_lex_trichotomy(a.drop_first(), b.drop_first());
        if a.drop_first() == b.drop_first() {
            assert(a.drop_first().len() == a.len() - 1);
            assert(b.drop_first().len() == b.len() - 1);
            assert(a.len() == b.len());
            assert forall|i: int| 0 <= i < a.len() implies a[i] == b[i] by {
                if i > 0 {
                    assert(a[i] == a.drop_first()[i - 1]);
                    assert(b[i] == b.drop_first()[i - 1]);
                }
            }
            assert(a =~= b);
        }
    }
}

pub proof fn lemma_lex_trans(a: Seq<char>, b: Seq<char>, c: Seq<char>)
    requires
        lex_lt(a, b),
        lex_lt(b, c),
    ensures
        lex_lt(a, c),
    decreases a.len(),
{
    if a.len() > 0 && b.len() > 0 && c.len() > 0 && a[0] == b[0] && b[0] == c[0] {
        lemma_lex_trans(a.drop_first(), b.drop_first(), c.drop_first());
    }
}

/// Compares two strings in lexicographic code-point order.
pub fn str_lex_lt(a: &String, b: &String) -> (r: bool)
    ensures
        r == lex_lt(a@, b@),
{
    let an = a.as_str().unicode_len();
    let bn = b.as_str().unicode_len();
    let mut i: usize = 0;
    proof {
        assert(a@.skip(0) =~= a@);
        assert(b@.skip(0) =~= b@);
    }
    loop
        invariant
            i <= an,
            i <= bn,
            an == a@.len(),
            bn == b@.len(),
            lex_lt(a@, b@) == lex_lt(a@.skip(i as int), b@.skip(i as int)),
        decreases an - i,
    {
        if i == bn {
            proof {
                assert(b@.skip(i as int).len() == 0);
            }
            return false;
        }
        if i == an {
            proof {
                assert(a@.skip(i as int).len() == 0);
                assert(b@.skip(i as int).len() > 0);
            }
            return true;
        }
        let ca = a.as_str().get_char(i);
        let cb = b.as_str().get_char(i);
        proof {
            assert(a@.skip(i as int)[0] == a@[i as int]);
            assert(b@.skip(i as int)[0] == b@[i as int]);
        }
        if ca != cb {
            return (ca as u32) < (cb as u32);
        }
        proof {
            assert(a@.skip(i as int).drop_first() =~= a@.skip(i + 1));
            assert(b@.skip(i as int).drop_first() =~= b@.skip(i + 1));
        }
        i += 1;
    }
}

/// The position of the last `.` that separates a file name from its
/// extension: the largest index at or after 1 holding a `.`, or 0 when there
/// is none. A name whose only `.` leads it has no extension.
pub open spec fn spec_last_dot(s: Seq<char>) -> int
    decreases s.len(),
{
    if s.len() <= 1 {
        0
    } else if s.last() == '.' {
        s.len() - 1
    } else {
        spec_last_dot(s.drop_last())
    }
}

/// The stem of a file name: the portion before the final `.`, or the whole
/// name when it has no embedded `.`.
pub open spec fn spec_file_stem(s: Seq<char>) -> Seq<char> {
    if spec_last_dot(s) == 0 {
        s
    } else {
        s.subrange(0, spec_last_dot(s))
    }
}

proof fn lemma_last_dot_found(s: Seq<char>, j: int)
    requires
        1 <= j < s.len(),
        s[j] == '.',
        forall|k: int| j < k < s.len() ==> s[k] != '.',
    ensures
        spec_last_dot(s) == j,
    decreases s.len(),
{
    if j < s.len() - 1 {
        assert(s.drop_last()[j] == s[j]);
        lemma_last_dot_found(s.drop_last(), j);
    }
}

proof fn lemma_last_dot_none(s: Seq<char>)
    requires
        forall|k: int| 1 <= k < s.len() ==> s[k] != '.',
    ensures
        spec_last_dot(s) == 0,
    decreases s.len(),
{
    if s.len() > 1 {
        lemma_last_dot_none(s.drop_last());
    }
}

/// The stem of a file or directory name: the name up to its final `.`, the
/// whole name when it has none (or only a leading one).
pub fn file_stem(name: &str) -> (r: String)
    ensures
        r@ == spec_file_stem(name@),
{
    let n = name.unicode_len();
    let mut i: usize = n;
    while i > 1
        invariant
            i <= n,
            n == name@.len(),
            forall|k: int| i <= k < n ==> name@[k] != '.',
        decreases i,
    {
        if name.get_char(i - 1) == '.' {
            proof {
                lemma_last_dot_found(name@, i - 1);
            }
            return String::from_str(name.substring_char(0, i - 1));
        }
        i -= 1;
    }
    proof {
        lemma_last_dot_none(name@);
        assert(name@.subrange(0, n as int) =~= name@);
    }
    String::from_str(name.substring_char(0, n))
}

/// Whether `p` names something strictly below the directory `base`: `base`,
/// a path separator, and a nonempty remainder.
pub open spec fn under_dir(p: Seq<char>, base: Seq<char>) -> bool {
    &&& p.len() > base.len() + 1
    &&& p.subrange(0, base.len() as int) == base
    &&& p[base.len() as int] == '/'
}

/// The remainder of a path below the directory `base`.
pub open spec fn rel_of(p: Seq<char>, base: Seq<char>) -> Seq<char> {
    p.subrange(base.len() as int + 1, p.len() as int)
}

/// Strips a directory prefix and its trailing separator from a path; `None`
/// when the path does not lie below the directory.
pub fn strip_path_prefix(base: &str, full: &str) -> (r: Option<String>)
    ensures
        r is Some <==> under_dir(full@, base@),
        r matches Some(rest) ==> rest@ == rel_of(full@, base@),
{
    let bn = base.unicode_len();
    let fln = full.unicode_len();
    if fln <= bn {
        return None;
    }
    if fln == bn + 1 {
        return None;
    }
    let prefix = String::from_str(full.substring_char(0, bn));
    let base_string = String::from_str(base);
    if !prefix.eq(&base_string) {
        return None;
    }
    if full.get_char(bn) != '/' {
        return None;
    }
    Some(String::from_str(full.substring_char(bn + 1, fln)))
}

/// Lines joined with a newline between consecutive lines; no trailing newline.
pub open spec fn spec_join(ls: Seq<Seq<char>>) -> Seq<char>
    decreases ls.len(),
{
    if ls.len() == 0 {
        Seq::empty()
    } else if ls.len() == 1 {
        ls[0]
    } else {
        ls[0] + seq!['\n'] + spec_join(ls.drop_first())
    }
}

/// Lines concatenated, every line followed by a newline.
pub open spec fn spec_concat_nl(ls: Seq<Seq<char>>) -> Seq<char>
    decreases ls.len(),
{
    if ls.len() == 0 {
        Seq::empty()
    } else {
        ls[0] + seq!['\n'] + spec_concat_nl(ls.drop_first())
    }
}

/// Joins the lines from `from` on with newlines between consecutive lines.
pub fn join_from(lines: &Vec<String>, from: usize) -> (r: String)
    requires
        from <= lines@.len(),
    ensures
        r@ == spec_join(line_views(lines@).subrange(from as int, lines@.len() as int)),
    decreases lines@.len() - from,
{
    let n = lines.len();
    if from == n {
        let r = String::new();
        proof {
            assert(line_views(lines@).subrange(from as int, n as int) =~= Seq::<Seq<
                char,
            >>::empty());
        }
        r
    } else if from == n - 1 {
        let r = lines[from].clone();
        proof {
            let ghost sub = line_views(lines@).subrange(from as int, n as int);
            assert(sub.len() == 1);
            assert(sub[0] == lines@[from as int]@);
        }
        r
    } else {
        let mut r = lines[from].clone();
        r.append("\n");
        let rest = join_from(lines, from + 1);
        r.append(rest.as_str());
        proof {
            reveal_strlit("\n");
            assert("\n"@ =~= seq!['\n']);
            let ghost sub = line_views(lines@).subrange(from as int, n as int);
            assert(sub.drop_first() =~= line_views(lines@).subrange(from + 1, n as int));
            assert(sub[0] == lines@[from as int]@);
            assert(r@ =~= spec_join(sub));
        }
        r
    }
}

/// Concatenates the lines of the range `from..to`, each followed by a newline.
pub fn concat_nl_range(lines: &Vec<String>, from: usize, to: usize) -> (r: String)
    requires
        from <= to <= lines@.len(),
    ensures
        r@ == spec_concat_nl(line_views(lines@).subrange(from as int, to as int)),
    decreases to - from,
{
    if from == to {
        let r = String::new();
        proof {
            assert(line_views(lines@).subrange(from as int, to as int) =~= Seq::<Seq<
                char,
            >>::empty());
        }
        r
    } else {
        let mut r = lines[from].clone();
        r.append("\n");
        let rest = concat_nl_range(lines, from + 1, to);
        r.append(rest.as_str());
        proof {
            reveal_strlit("\n");
            assert("\n"@ =~= seq!['\n']);
            let ghost sub = line_views(lines@).subrange(from as int, to as int);
            assert(sub.drop_first() =~= line_views(lines@).subrange(from + 1, to as int));
            assert(sub[0] == lines@[from as int]@);
            assert(r@ =~= spec_concat_nl(sub));
        }
        r
    }
}

} // verus!
