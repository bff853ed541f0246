//! Path strings and the character-level operations the resolver needs.
//!
//! Every path handled by the library is a plain string whose components are
//! separated by `/`. The filesystem root is represented by the empty string,
//! so that `dir_of` (one step up) and `join_dir` (one step down) are exact
//! inverses all the way up the ancestor chain.

use vstd::prelude::*;
use vstd::string::*;

verus! {

/// The separator between path components.
pub open spec fn sep() -> char {
    '/'
}

/// Does `s` contain at least one separator?
pub open spec fn has_sep(s: Seq<char>) -> bool {
    exists|i: int| 0 <= i < s.len() && s[i] == sep()
}

/// The component after the last separator; the whole string when there is none.
pub open spec fn base_name(s: Seq<char>) -> Seq<char>
    decreases s.len(),
{
    if s.len() == 0 {
        s
    } else if s.last() == sep() {
        Seq::empty()
    } else {
        base_name(s.drop_last()).push(s.last())
    }
}

/// Everything before the last separator; empty when there is none.
pub open spec fn dir_of(s: Seq<char>) -> Seq<char>
    decreases s.len(),
{
    if s.len() == 0 {
        s
    } else if s.last() == sep() {
        s.drop_last()
    } else {
        dir_of(s.drop_last())
    }
}

/// `a` extended by one more component `b`.
pub open spec fn join_dir(a: Seq<char>, b: Seq<char>) -> Seq<char> {
    a + seq![sep()] + b
}

/// Is `p` a prefix of `s`?
pub open spec fn is_prefix(p: Seq<char>, s: Seq<char>) -> bool {
    p.len() <= s.len() && s.subrange(0, p.len() as int) == p
}

/// Is `t` a suffix of `s`?
pub open spec fn is_suffix(t: Seq<char>, s: Seq<char>) -> bool {
    t.len() <= s.len() && s.subrange(s.len() - t.len(), s.len() as int) == t
}

/// A string without separators splits into itself and an empty directory.
pub proof fn lemma_no_sep(s: Seq<char>)
    requires
        !has_sep(s),
    ensures
        base_name(s) == s,
        dir_of(s) == Seq::<char>::empty(),
    decreases s.len(),
{
    if s.len() == 0 {
        assert(s =~= Seq::<char>::empty());
    } else {
        assert(s.last() != sep());
        assert(!has_sep(s.drop_last())) by {
            if has_sep(s.drop_last()) {
                let i = choose|i: int| 0 <= i < s.drop_last().len() && s.drop_last()[i] == sep();
                assert(s[i] == sep());
            }
        }
        lemma_no_sep(s.drop_last());
        assert(base_name(s) =~= s);
    }
}

/// When the last separator of `s` stands at `i`, the directory part is
/// everything before it and the base name everything after it.
pub proof fn lemma_sep_split(s: Seq<char>, i: int)
    requires
        0 <= i < s.len(),
        s[i] == sep(),
        forall|j: int| i < j < s.len() ==> s[j] != sep(),
    ensures
        dir_of(s) == s.subrange(0, i),
        base_name(s) == s.subrange(i + 1, s.len() as int),
    decreases s.len(),
{
    if i == s.len() - 1 {
        assert(s.last() == sep());
        assert(dir_of(s) == s.drop_last());
        assert(s.drop_last() =~= s.subrange(0, i));
        assert(base_name(s) =~= s.subrange(i + 1, s.len() as int));
    } else {
        assert(s.last() != sep());
        let d = s.drop_last();
        assert(forall|j: int| i < j < d.len() ==> d[j] != sep());
        lemma_sep_split(d, i);
        assert(d.subrange(0, i) =~= s.subrange(0, i));
        assert(dir_of(s) == dir_of(d));
        assert(base_name(s) == base_name(d).push(s.last()));
        assert(base_name(d).push(s.last()) =~= d.subrange(i + 1, d.len() as int).push(s.last()));
        assert(d.subrange(i + 1, d.len() as int).push(s.last()) =~= s.subrange(
            i + 1,
            s.len() as int,
        ));
    }
}

/// Character-for-character string equality.
pub fn str_equal(a: &str, b: &str) -> (r: bool)
    ensures
        r == (a@ == b@),
{
    let alen = a.unicode_len();
    let blen = b.unicode_len();
    if alen != blen {
        return false;
    }
    let mut i: usize = 0;
    while i < alen
        invariant
            0 <= i <= alen,
            alen == a@.len(),
            alen == b@.len(),
            forall|j: int| 0 <= j < i ==> a@[j] == b@[j],
        decreases alen - i,
    {
        if a.get_char(i) != b.get_char(i) {
            return false;
        }
        i = i + 1;
    }
    proof {
        assert(a@ =~= b@);
    }
    true
}

/// The index of the last separator of `s`, when it has one.
pub fn last_sep_index(s: &str) -> (r: Option<usize>)
    ensures
        r matches Some(i) ==> 0 <= i < s@.len() && s@[i as int] == sep() && forall|j: int|
            i < j < s@.len() ==> s@[j] != sep(),
        r is None ==> !has_sep(s@),
{
    let n = s.unicode_len();
    let mut i: usize = n;
    while i > 0
        invariant
            0 <= i <= n,
            n == s@.len(),
            forall|j: int| i <= j < n ==> s@[j] != sep(),
        decreases i,
    {
        i = i - 1;
        if s.get_char(i) == '/' {
            return Some(i);
        }
    }
    proof {
        if has_sep(s@) {
            let w = choose|w: int| 0 <= w < s@.len() && s@[w] == sep();
            assert(s@[w] != sep());
        }
    }
    None
}

/// The component after the last separator of `s`.
pub fn file_name(s: &str) -> (r: String)
    ensures
        r@ == base_name(s@),
{
    match last_sep_index(s) {
        Some(i) => {
            proof {
                lemma_sep_split(s@, i as int);
            }
            let n = s.unicode_len();
            s.substring_char(i + 1, n).to_owned()
        },
        None => {
            proof {
                lemma_no_sep(s@);
            }
            s.to_owned()
        },
    }
}

/// Everything before the last separator of `s`; the empty string (the
/// filesystem root) when there is none.
pub fn dir_name(s: &str) -> (r: String)
    ensures
        r@ == dir_of(s@),
{
    match last_sep_index(s) {
        Some(i) => {
            proof {
                lemma_sep_split(s@, i as int);
            }
            s.substring_char(0, i).to_owned()
        },
        None => {
            proof {
                lemma_no_sep(s@);
            }
            String::new()
        },
    }
}

/// `a` extended by the component (or component chain) `b`.
pub fn join_path(a: &str, b: &str) -> (r: String)
    ensures
        r@ == join_dir(a@, b@),
{
    proof {
        reveal_strlit("/");
    }
    let mut r = a.to_owned();
    r.append("/");
    r.append(b);
    proof {
        assert(r@ =~= join_dir(a@, b@));
    }
    r
}

/// `s` extended by the suffix `t` (no separator in between).
pub fn append_str(s: &str, t: &str) -> (r: String)
    ensures
        r@ == s@ + t@,
{
    let mut r = s.to_owned();
    r.append(t);
    r
}

/// Does `s` start with `p`?
pub fn str_starts_with(s: &str, p: &str) -> (r: bool)
    ensures
        r == is_prefix(p@, s@),
{
    let plen = p.unicode_len();
    let slen = s.unicode_len();
    if plen > slen {
        return false;
    }
    let mut i: usize = 0;
    while i < plen
        invariant
            0 <= i <= plen,
            plen == p@.len(),
            slen == s@.len(),
            plen <= slen,
            forall|j: int| 0 <= j < i ==> s@[j] == p@[j],
        decreases plen - i,
    {
        if s.get_char(i) != p.get_char(i) {
            proof {
                assert(s@.subrange(0, p@.len() as int)[i as int] != p@[i as int]);
            }
            return false;
        }
        i = i + 1;
    }
    proof {
        assert(s@.subrange(0, p@.len() as int) =~= p@);
    }
    true
}

/// Does `s` end with `t`?
pub fn str_ends_with(s: &str, t: &str) -> (r: bool)
    ensures
        r == is_suffix(t@, s@),
{
    let tlen = t.unicode_len();
    let slen = s.unicode_len();
    if tlen > slen {
        return false;
    }
    let off = slen - tlen;
    let mut i: usize = 0;
    while i < tlen
        invariant
            0 <= i <= tlen,
            tlen == t@.len(),
            slen == s@.len(),
            off == slen - tlen,
            forall|j: int| 0 <= j < i ==> s@[off + j] == t@[j],
        decreases tlen - i,
    {
        if s.get_char(off + i) != t.get_char(i) {
            proof {
                assert(s@.subrange(s@.len() - t@.len(), s@.len() as int)[i as int] != t@[i as int]);
            }
            return false;
        }
        i = i + 1;
    }
    proof {
        assert(s@.subrange(s@.len() - t@.len(), s@.len() as int) =~= t@);
    }
    true
}

/// The ancestor `n` directory levels above `s`, or `None` when that would
/// climb past the filesystem root.
pub open spec fn spec_ancestor(s: Seq<char>, n: nat) -> Option<Seq<char>>
    decreases n,
{
    if n == 0 {
        Some(s)
    } else if s.len() == 0 {
        None
    } else {
        spec_ancestor(dir_of(s), (n - 1) as nat)
    }
}

/// Walks `n` levels up the ancestor chain of `s`.
pub fn nth_ancestor(s: &str, n: usize) -> (r: Option<String>)
    ensures
        r matches Some(p) ==> spec_ancestor(s@, n as nat) == Some(p@),
        r is None ==> spec_ancestor(s@, n as nat) is None,
{
    let mut cur = s.to_owned();
    let mut k: usize = 0;
    while k < n
        invariant
            0 <= k <= n,
            spec_ancestor(s@, n as nat) == spec_ancestor(cur@, (n - k) as nat),
        decreases n - k,
    {
        if cur.as_str().unicode_len() == 0 {
            return None;
        }
        cur = dir_name(cur.as_str());
        k = k + 1;
    }
    Some(cur)
}

/// The parts of `s` between occurrences of `c`; always at least one part.
pub open spec fn split_at(s: Seq<char>, c: char) -> Seq<Seq<char>>
    decreases s.len(),
{
    if s.len() == 0 {
        seq![s]
    } else if s[0] == c {
        seq![Seq::<char>::empty()] + split_at(s.drop_first(), c)
    } else {
        let r = split_at(s.drop_first(), c);
        seq![seq![s[0]] + r[0]] + r.drop_first()
    }
}

/// The parts joined back together with `c` between them.
pub open spec fn join_with(parts: Seq<Seq<char>>, c: char) -> Seq<char>
    decreases parts.len(),
{
    if parts.len() == 0 {
        Seq::empty()
    } else if parts.len() == 1 {
        parts[0]
    } else {
        parts[0] + seq![c] + join_with(parts.drop_first(), c)
    }
}

/// Splitting yields at least one part.
pub proof fn lemma_split_at_len(s: Seq<char>, c: char)
    ensures
        split_at(s, c).len() >= 1,
    decreases s.len(),
{
    if s.len() != 0 {
        lemma_split_at_len(s.drop_first(), c)
    }
}

/// No part of a split contains the character it was split on.
pub proof fn lemma_split_no_sep(s: Seq<char>, c: char)
    ensures
        forall|k: int, j: int|
            0 <= k < split_at(s, c).len() && 0 <= j < split_at(s, c)[k].len() ==> split_at(
                s,
                c,
            )[k][j] != c,
    decreases s.len(),
{
    if s.len() == 0 {
    } else {
        lemma_split_no_sep(s.drop_first(), c);
        lemma_split_at_len(s.drop_first(), c);
        let r = split_at(s.drop_first(), c);
        if s[0] == c {
            assert(forall|k: int| 1 <= k < split_at(s, c).len() ==> split_at(s, c)[k] == r[k - 1]);
        } else {
            assert(split_at(s, c)[0] =~= seq![s[0]] + r[0]);
            assert(forall|k: int|
                1 <= k < split_at(s, c).len() ==> split_at(s, c)[k] == r.drop_first()[k - 1]);
        }
    }
}

/// Joining the split of `s` gives `s` back.
pub proof fn lemma_split_join(s: Seq<char>, c: char)
    ensures
        join_with(split_at(s, c), c) == s,
    decreases s.len(),
{
    if s.len() == 0 {
        assert(join_with(split_at(s, c), c) =~= s);
    } else {
        lemma_split_join(s.drop_first(), c);
        lemma_split_at_len(s.drop_first(), c);
        let r = split_at(s.drop_first(), c);
        if s[0] == c {
            assert(split_at(s, c).drop_first() =~= r);
            assert(join_with(split_at(s, c), c) =~= s);
        } else {
            let parts = split_at(s, c);
            assert(parts[0] == seq![s[0]] + r[0]);
            if r.len() == 1 {
                assert(parts.len() == 1);
                assert(join_with(r, c) == r[0]);
                assert(join_with(parts, c) == parts[0]);
                assert(parts[0] =~= seq![s[0]] + s.drop_first());
                assert(seq![s[0]] + s.drop_first() =~= s);
            } else {
                assert(parts.drop_first() =~= r.drop_first());
                assert(join_with(parts, c) =~= seq![s[0]] + r[0] + seq![c] + join_with(
                    r.drop_first(),
                    c,
                ));
                assert(r[0] + seq![c] + join_with(r.drop_first(), c) =~= join_with(r, c));
                assert(seq![s[0]] + r[0] + seq![c] + join_with(r.drop_first(), c) =~= seq![s[0]]
                    + (r[0] + seq![c] + join_with(r.drop_first(), c)));
                assert(join_with(parts, c) =~= seq![s[0]] + s.drop_first());
                assert(join_with(parts, c) =~= s);
            }
        }
    }
}

/// The first part plus the remainder of a split, with a prefix `p` glued onto
/// the first part; this describes how a left-to-right scan assembles a split.
pub open spec fn glue_first(p: Seq<char>, parts: Seq<Seq<char>>) -> Seq<Seq<char>> {
    seq![p + parts[0]] + parts.drop_first()
}

/// Scans `s` and returns the parts between occurrences of `c`.
pub fn split_string(s: &str, c: char) -> (r: Vec<String>)
    ensures
        r.deep_view() == split_at(s@, c),
        r.len() >= 1,
{
    let n = s.unicode_len();
    let mut done: Vec<String> = Vec::new();
    let mut start: usize = 0;
    let mut i: usize = 0;
    proof {
        lemma_split_at_len(s@, c);
        assert(s@.subrange(0, 0) =~= Seq::<char>::empty());
        assert(s@.subrange(0, n as int) =~= s@);
        assert(split_at(s@, c) =~~= done.deep_view() + glue_first(
            s@.subrange(0, 0),
            split_at(s@.subrange(0, n as int), c),
        ));
    }
    while i < n
        invariant
            0 <= start <= i <= n,
            n == s@.len(),
            split_at(s@, c) =~~= done.deep_view() + glue_first(
                s@.subrange(start as int, i as int),
                split_at(s@.subrange(i as int, n as int), c),
            ),
        decreases n - i,
    {
        let ch = s.get_char(i);
        proof {
            let rest = s@.subrange(i as int, n as int);
            let rest1 = s@.subrange(i + 1, n as int);
            assert(rest[0] == s@[i as int]);
            assert(rest.drop_first() =~= rest1);
            lemma_split_at_len(rest1, c);
            if s@[i as int] == c {
                assert(split_at(rest, c) =~~= seq![Seq::<char>::empty()] + split_at(rest1, c));
            } else {
                assert(split_at(rest, c) =~~= seq![seq![s@[i as int]] + split_at(rest1, c)[0]]
                    + split_at(rest1, c).drop_first());
                assert(s@.subrange(start as int, i as int) + seq![s@[i as int]] =~= s@.subrange(
                    start as int,
                    i + 1,
                ));
            }
        }
        if ch == c {
            let part = s.substring_char(start, i).to_owned();
            done.push(part);
            start = i + 1;
            proof {
                let rest1 = s@.subrange(i + 1, n as int);
                assert(s@.subrange(i + 1, i + 1) =~= Seq::<char>::empty());
                assert(split_at(s@, c) =~~= done.deep_view() + glue_first(
                    s@.subrange(i + 1, i + 1),
                    split_at(rest1, c),
                ));
            }
        }
        i = i + 1;
    }
    let last = s.substring_char(start, n).to_owned();
    done.push(last);
    proof {
        assert(s@.subrange(n as int, n as int) =~= Seq::<char>::empty());
        assert(split_at(s@.subrange(n as int, n as int), c) =~~= seq![Seq::<char>::empty()]);
        assert(done.deep_view() =~~= split_at(s@, c));
    }
    done
}

/// Appending one more part extends the join by a separator and that part.
pub proof fn lemma_join_push(parts: Seq<Seq<char>>, x: Seq<char>, c: char)
    requires
        parts.len() >= 1,
    ensures
        join_with(parts.push(x), c) == join_with(parts, c) + seq![c] + x,
    decreases parts.len(),
{
    if parts.len() == 1 {
        assert(parts.push(x).drop_first() =~~= seq![x]);
        assert(join_with(seq![x], c) == seq![x][0]);
        assert(parts.push(x)[0] == parts[0]);
        assert(join_with(parts.push(x), c) =~= join_with(parts, c) + seq![c] + x);
    } else {
        lemma_join_push(parts.drop_first(), x, c);
        assert(parts.push(x).drop_first() =~~= parts.drop_first().push(x));
        assert(join_with(parts.push(x), c) =~= join_with(parts, c) + seq![c] + x);
    }
}

/// Joins the given components with the path separator.
pub fn join_components(v: &Vec<String>) -> (r: String)
    ensures
        r@ == join_with(v.deep_view(), sep()),
{
    if v.len() == 0 {
        return String::new();
    }
    let mut acc: String = v[0].clone();
    let mut i: usize = 1;
    proof {
        assert(v.deep_view().subrange(0, 1) =~~= seq![v.deep_view()[0]]);
    }
    while i < v.len()
        invariant
            1 <= i <= v.len(),
            v.deep_view().len() == v.len(),
            acc@ == join_with(v.deep_view().subrange(0, i as int), sep()),
        decreases v.len() - i,
    {
        proof {
            reveal_strlit("/");
            lemma_join_push(v.deep_view().subrange(0, i as int), v.deep_view()[i as int], sep());
            assert(v.deep_view().subrange(0, i as int).push(v.deep_view()[i as int]) =~~= v
                .deep_view()
                .subrange(0, i + 1));
        }
        acc.append("/");
        acc.append(v[i].as_str());
        i = i + 1;
    }
    proof {
        assert(v.deep_view().subrange(0, v.len() as int) =~~= v.deep_view());
    }
    acc
}

} // verus!

