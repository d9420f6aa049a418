//! Paths written with `/` between their components, modelled as sequences of
//! characters.
use vstd::prelude::*;

verus! {

/// A path is absolute when it begins at the root.
pub open spec fn is_absolute(p: Seq<char>) -> bool {
    p.len() > 0 && p[0] == '/'
}

/// A component begins at `i`: a non-separator at the start or right after a separator.
pub open spec fn starts_segment(p: Seq<char>, i: int) -> bool {
    0 <= i < p.len() && p[i] != '/' && (i == 0 || p[i - 1] == '/')
}

/// The segment that begins at `i` is exactly `.`.
pub open spec fn is_dot_segment(p: Seq<char>, i: int) -> bool {
    p[i] == '.' && (i + 1 == p.len() || p[i + 1] == '/')
}

/// The number of named components (neither empty nor `.`) that begin before `n`.
pub open spec fn named_segments_before(p: Seq<char>, n: int) -> nat
    decreases n,
{
    if n <= 0 {
        0
    } else {
        named_segments_before(p, n - 1) + if starts_segment(p, n - 1) && !is_dot_segment(
            p,
            n - 1,
        ) {
            1nat
        } else {
            0nat
        }
    }
}

/// The number of components of a path: the root, a leading `.`, and each named
/// segment; empty segments and inner `.` segments do not count.
pub open spec fn component_count(p: Seq<char>) -> nat {
    (if is_absolute(p) {
        1nat
    } else {
        0nat
    }) + (if p.len() > 0 && is_dot_segment(p, 0) {
        1nat
    } else {
        0nat
    }) + named_segments_before(p, p.len() as int)
}

/// Whether a name holds more than one component, and so is a path rather than a
/// bare program name.
pub fn has_separator(name: &str) -> (r: bool)
    ensures
        r == (component_count(name@) > 1),
{
    let n = name.unicode_len();
    let mut named: usize = 0;
    let mut i: usize = 0;
    while i < n
        invariant
            n == name@.len(),
            i <= n,
            named == named_segments_before(name@, i as int),
            named <= i,
        decreases n - i,
    {
        let c = name.get_char(i);
        if c != '/' && (i == 0 || name.get_char(i - 1) == '/') {
            let dot = c == '.' && (i + 1 == n || name.get_char(i + 1) == '/');
            if !dot {
                named = named + 1;
            }
        }
        i = i + 1;
    }
    let mut extra: usize = 0;
    if n > 0 && name.get_char(0) == '/' {
        extra = extra + 1;
    }
    if n > 0 && name.get_char(0) == '.' && (n == 1 || name.get_char(1) == '/') {
        extra = extra + 1;
    }
    named > 1 || named + extra > 1
}


/// `name` appended to `dir` as a further component; an absolute `name` replaces `dir`.
pub open spec fn joined(dir: Seq<char>, name: Seq<char>) -> Seq<char> {
    if is_absolute(name) {
        name
    } else if dir.len() == 0 || dir.last() == '/' {
        dir + name
    } else {
        dir + seq!['/'] + name
    }
}

/// Appends `name` to `dir`, with one separator between them where `dir` lacks one.
pub fn join(dir: &str, name: &str) -> (r: String)
    ensures
        r@ == joined(dir@, name@),
{
    let nlen = name.unicode_len();
    if nlen > 0 && name.get_char(0) == '/' {
        return name.to_owned();
    }
    let dlen = dir.unicode_len();
    let mut r = dir.to_owned();
    if dlen > 0 && dir.get_char(dlen - 1) != '/' {
        r.append("/");
        proof {
            reveal_strlit("/");
        }
    }
    r.append(name);
    r
}

/// Resolves `name` against the working directory `cwd`: unchanged when it is
/// already absolute, else `cwd` joined with it.
pub fn to_absolute(name: &str, cwd: &str) -> (r: String)
    ensures
        r@ == (if is_absolute(name@) {
            name@
        } else {
            joined(cwd@, name@)
        }),
{
    join(cwd, name)
}

/// The pieces of `s` between occurrences of `delim`, in order; an empty `s` is
/// one empty piece.
pub open spec fn split_on(s: Seq<char>, delim: char) -> Seq<Seq<char>>
    decreases s.len(),
{
    if s.len() == 0 {
        seq![Seq::<char>::empty()]
    } else {
        let rest = split_on(s.drop_last(), delim);
        if s.last() == delim {
            rest.push(Seq::<char>::empty())
        } else {
            rest.update(rest.len() - 1, rest.last().push(s.last()))
        }
    }
}

proof fn lemma_split_on_nonempty(s: Seq<char>, delim: char)
    ensures
        split_on(s, delim).len() >= 1,
    decreases s.len(),
{
    if s.len() > 0 {
        lemma_split_on_nonempty(s.drop_last(), delim);
    }
}

/// The character views of a sequence of strings.
pub open spec fn views(v: Seq<String>) -> Seq<Seq<char>> {
    v.map_values(|x: String| x@)
}

/// Splits a delimited list (a search list, say) into its pieces, in order.
pub fn split_list(list: &str, delim: char) -> (r: Vec<String>)
    ensures
        views(r@) == split_on(list@, delim),
{
    let n = list.unicode_len();
    let mut out: Vec<String> = Vec::new();
    let mut start: usize = 0;
    let mut i: usize = 0;
    assert(views(out@) =~= Seq::<Seq<char>>::empty());
    assert(list@.subrange(0, 0) =~= Seq::<char>::empty());
    assert(views(out@).push(list@.subrange(0, 0)) =~= split_on(list@.subrange(0, 0), delim));
    while i < n
        invariant
            n == list@.len(),
            start <= i <= n,
            views(out@).push(list@.subrange(start as int, i as int)) == split_on(
                list@.subrange(0, i as int),
                delim,
            ),
        decreases n - i,
    {
        let c = list.get_char(i);
        let ghost pre = list@.subrange(0, i as int);
        let ghost cur = list@.subrange(0, i as int + 1);
        let ghost before = views(out@);
        assert(cur.drop_last() == pre);
        proof {
            lemma_split_on_nonempty(pre, delim);
        }
        if c == delim {
            let piece = list.substring_char(start, i).to_owned();
            out.push(piece);
            assert(views(out@) == before.push(piece@));
            start = i + 1;
            assert(list@.subrange(start as int, i as int + 1) == Seq::<char>::empty());
        } else {
            assert(list@.subrange(start as int, i as int + 1) == list@.subrange(
                start as int,
                i as int,
            ).push(c));
            assert(views(out@).push(list@.subrange(start as int, i as int + 1)) == split_on(
                pre,
                delim,
            ).update(split_on(pre, delim).len() - 1, split_on(pre, delim).last().push(c)));
        }
        i = i + 1;
    }
    let last = list.substring_char(start, n).to_owned();
    out.push(last);
    assert(list@.subrange(0, n as int) == list@);
    out
}

} // verus!
