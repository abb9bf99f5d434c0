//! Small verified helpers over string slices.

use vstd::prelude::*;

verus! {

/// Character-for-character equality of two string slices.
pub fn str_eq(a: &str, b: &str) -> (r: bool)
    ensures
        r == (a@ == b@),
{
    let alen = a.unicode_len();
    let blen = b.unicode_len();
    if alen != blen {
        return false;
    }
    let mut i: usize = 0;
    while i < alen
        invariant
            i <= alen,
            alen == a@.len(),
            alen == b@.len(),
            forall|j: int| 0 <= j < i ==> a@[j] == b@[j],
        decreases alen - i,
    {
        if a.get_char(i) != b.get_char(i) {
            return false;
        }
        i = i + 1;
    }
    proof {
        assert(a@ =~= b@);
    }
    true
}

/// The segments of a character sequence split on `'\n'`: always at least
/// one, and one more for every newline.
pub open spec fn split_lines_spec(s: Seq<char>) -> Seq<Seq<char>>
    decreases s.len(),
{
    if s.len() == 0 {
        seq![Seq::<char>::empty()]
    } else if s[0] == '\n' {
        seq![Seq::<char>::empty()] + split_lines_spec(s.drop_first())
    } else {
        let rest = split_lines_spec(s.drop_first());
        seq![seq![s[0]] + rest[0]] + rest.drop_first()
    }
}

/// Splitting has at least one segment.
pub proof fn lemma_split_lines_len(s: Seq<char>)
    ensures
        split_lines_spec(s).len() >= 1,
    decreases s.len(),
{
    if s.len() == 0 {
    } else {
        lemma_split_lines_len(s.drop_first());
        if s[0] == '\n' {
        } else {
            let rest = split_lines_spec(s.drop_first());
            assert((seq![seq![s[0]] + rest[0]] + rest.drop_first()).len() == 1 + rest.len() - 1);
        }
    }
}

/// Splitting at the first newline: the head segment is everything before
/// it, and the rest is the split of everything after it. With no newline at
/// all, the whole sequence is the one segment.
pub proof fn lemma_split_lines_first(s: Seq<char>, i: int)
    requires
        0 <= i <= s.len(),
        forall|j: int| 0 <= j < i ==> s[j] != '\n',
        i < s.len() ==> s[i] == '\n',
    ensures
        i == s.len() ==> split_lines_spec(s) == seq![s],
        i < s.len() ==> split_lines_spec(s) == seq![s.take(i)] + split_lines_spec(s.skip(i + 1)),
    decreases i,
{
    if s.len() == 0 {
        assert(s =~= Seq::<char>::empty());
        assert(split_lines_spec(s) =~= seq![s]);
    } else if s[0] == '\n' {
        assert(i == 0);
        assert(s.take(0) =~= Seq::<char>::empty());
        assert(s.skip(1) =~= s.drop_first());
        assert(split_lines_spec(s) =~= seq![s.take(0)] + split_lines_spec(s.skip(1)));
    } else {
        let df = s.drop_first();
        let rest = split_lines_spec(df);
        lemma_split_lines_len(df);
        lemma_split_lines_first(df, i - 1);
        if i == s.len() {
            assert(rest == seq![df]);
            assert(seq![s[0]] + rest[0] =~= s);
            assert(rest.drop_first() =~= Seq::<Seq<char>>::empty());
            assert(split_lines_spec(s) =~= seq![s]);
        } else {
            assert(rest == seq![df.take(i - 1)] + split_lines_spec(df.skip(i)));
            assert(rest[0] == df.take(i - 1));
            assert(seq![s[0]] + df.take(i - 1) =~= s.take(i));
            assert(rest.drop_first() =~= split_lines_spec(df.skip(i)));
            assert(df.skip(i) =~= s.skip(i + 1));
            assert(split_lines_spec(s) =~= seq![s.take(i)] + split_lines_spec(s.skip(i + 1)));
        }
    }
}

/// The directory part of a path, textually: everything before the last
/// `/`; `/` itself for a path directly under the root; empty when there is
/// no separator at all.
pub open spec fn dirname_spec(p: Seq<char>) -> Seq<char>
    decreases p.len(),
{
    if p.len() == 0 {
        p
    } else if p.last() == '/' {
        if p.len() == 1 {
            p
        } else {
            p.drop_last()
        }
    } else {
        dirname_spec(p.drop_last())
    }
}

/// A path joined under a directory, textually.
pub open spec fn join_spec(d: Seq<char>, f: Seq<char>) -> Seq<char> {
    if d.len() == 0 {
        f
    } else if d.last() == '/' {
        d + f
    } else {
        d + seq!['/'] + f
    }
}

/// Where an include resolves: an absolute path (leading `/`) stands as it
/// is; a relative one is joined under the including file's directory.
pub open spec fn resolve_path_spec(base: Seq<char>, inc: Seq<char>) -> Seq<char> {
    if inc.len() > 0 && inc[0] == '/' {
        inc
    } else {
        join_spec(dirname_spec(base), inc)
    }
}

/// With the last separator at `i`, the directory part is everything before
/// it (or the root itself).
proof fn lemma_dirname_last_sep(p: Seq<char>, i: int)
    requires
        0 <= i < p.len(),
        p[i] == '/',
        forall|j: int| i < j < p.len() ==> p[j] != '/',
    ensures
        dirname_spec(p) == if i == 0 {
            p.take(1)
        } else {
            p.take(i)
        },
    decreases p.len(),
{
    if i == p.len() - 1 {
        if p.len() == 1 {
            assert(p.take(1) =~= p);
        } else {
            assert(p.take(i) =~= p.drop_last());
        }
    } else {
        lemma_dirname_last_sep(p.drop_last(), i);
        if i == 0 {
            assert(p.drop_last().take(1) =~= p.take(1));
        } else {
            assert(p.drop_last().take(i) =~= p.take(i));
        }
    }
}

/// Without any separator, the directory part is empty.
proof fn lemma_dirname_no_sep(p: Seq<char>)
    requires
        forall|j: int| 0 <= j < p.len() ==> p[j] != '/',
    ensures
        dirname_spec(p) == Seq::<char>::empty(),
    decreases p.len(),
{
    if p.len() == 0 {
        assert(p =~= Seq::<char>::empty());
    } else {
        lemma_dirname_no_sep(p.drop_last());
    }
}

/// The directory part of a path, textually.
pub fn dirname_of(p: &str) -> (r: String)
    ensures
        r@ == dirname_spec(p@),
{
    let n = p.unicode_len();
    let mut i: usize = n;
    #[verifier::loop_isolation(false)]
    while i > 0
        invariant
            i <= n,
            n == p@.len(),
            forall|j: int| i <= j < n ==> p@[j] != '/',
        decreases i,
    {
        i = i - 1;
        if p.get_char(i) == '/' {
            proof {
                lemma_dirname_last_sep(p@, i as int);
            }
            if i == 0 {
                return p.substring_char(0, 1).to_owned();
            } else {
                return p.substring_char(0, i).to_owned();
            }
        }
    }
    proof {
        lemma_dirname_no_sep(p@);
    }
    String::new()
}

/// Where an include path resolves, relative to the including file.
pub fn resolve_include_path(base: &str, inc: &str) -> (r: String)
    ensures
        r@ == resolve_path_spec(base@, inc@),
{
    if inc.unicode_len() > 0 && inc.get_char(0) == '/' {
        return inc.to_owned();
    }
    let d = dirname_of(base);
    let dn = d.as_str().unicode_len();
    if dn == 0 {
        inc.to_owned()
    } else if d.as_str().get_char(dn - 1) == '/' {
        d.concat(inc)
    } else {
        let mut s = d;
        s.append("/");
        s.append(inc);
        proof {
            reveal_strlit("/");
            assert(dirname_spec(base@) + "/"@ + inc@ =~= dirname_spec(base@) + seq!['/'] + inc@);
        }
        s
    }
}

/// Splits a source text into its lines, each paired with its 1-based line
/// number, in reverse order, ready to be consumed back-to-front.
pub fn split_numbered_lines(source: &str) -> (r: Vec<(usize, String)>)
    ensures
        ({
            let parts = split_lines_spec(source@);
            &&& r@.len() == parts.len()
            &&& forall|j: int|
                0 <= j < r@.len() ==> (#[trigger] r@[j]).0 == parts.len() - j && r@[j].1@
                    == parts[parts.len() - 1 - j]
        }),
{
    let n = source.unicode_len();
    let mut fwd: Vec<String> = Vec::new();
    let mut pos: usize = 0;
    let mut done = false;
    proof {
        assert(source@.skip(0) =~= source@);
    }
    #[verifier::loop_isolation(false)]
    while !done
        invariant
            pos <= n,
            n == source@.len(),
            !done ==> split_lines_spec(source@) =~= fwd@.map_values(|t: String| t@)
                + split_lines_spec(source@.skip(pos as int)),
            done ==> ({
                let parts = split_lines_spec(source@);
                fwd@.len() == parts.len() && forall|j: int|
                    0 <= j < fwd@.len() ==> (#[trigger] fwd@[j])@ == parts[j]
            }),
        decreases n - pos + if done {
            0int
        } else {
            1int
        },
    {
        let ghost fwd0 = fwd@;
        let mut j: usize = pos;
        while j < n && source.get_char(j) != '\n'
            invariant
                pos <= j <= n,
                n == source@.len(),
                forall|t: int| pos <= t < j ==> source@[t] != '\n',
            decreases n - j,
        {
            j = j + 1;
        }
        let segment = source.substring_char(pos, j).to_owned();
        proof {
            lemma_split_lines_first(source@.skip(pos as int), j - pos);
            assert(source@.skip(pos as int).take(j - pos) =~= source@.subrange(
                pos as int,
                j as int,
            ));
            assert(forall|t: int|
                0 <= t < j - pos ==> source@.skip(pos as int)[t] == source@[pos + t]);
        }
        fwd.push(segment);
        proof {
            assert(fwd@.map_values(|t: String| t@) =~= fwd0.map_values(|t: String| t@).push(
                source@.subrange(pos as int, j as int),
            ));
        }
        if j < n {
            proof {
                assert(source@.skip(pos as int).skip(j - pos + 1) =~= source@.skip(j + 1));
                assert(split_lines_spec(source@.skip(pos as int)) == seq![
                    source@.subrange(pos as int, j as int),
                ] + split_lines_spec(source@.skip(j + 1)));
            }
            pos = j + 1;
        } else {
            proof {
                assert(split_lines_spec(source@.skip(pos as int)) == seq![
                    source@.subrange(pos as int, j as int),
                ]);
                let parts = split_lines_spec(source@);
                assert(parts =~= fwd@.map_values(|t: String| t@));
                assert(forall|k: int|
                    0 <= k < fwd@.len() ==> (#[trigger] fwd@[k])@ == fwd@.map_values(
                        |t: String| t@,
                    )[k]);
            }
            done = true;
        }
    }
    let total = fwd.len();
    let mut out: Vec<(usize, String)> = Vec::new();
    let mut k: usize = total;
    #[verifier::loop_isolation(false)]
    while k > 0
        invariant
            k <= total,
            total == fwd@.len(),
            out@.len() == total - k,
            forall|j: int|
                0 <= j < out@.len() ==> (#[trigger] out@[j]).0 == total - j && out@[j].1@
                    == fwd@[total - 1 - j]@,
        decreases k,
    {
        k = k - 1;
        let item = fwd[k].clone();
        out.push((k + 1, item));
    }
    out
}

} // verus!
