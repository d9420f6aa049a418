//! Executable suffixes: the table of recognized suffixes, how a candidate is
//! matched against it, and how candidates are expanded with it.
use crate::path::{split_list, split_on, views};
use vstd::prelude::*;

verus! {

/// A character's code, with ASCII capitals taken to lower case.
pub open spec fn folded(c: char) -> u32 {
    if 65 <= (c as u32) <= 90 {
        (c as u32 + 32) as u32
    } else {
        c as u32
    }
}

/// `p` ends with `suffix`, ASCII case aside.
pub open spec fn ends_with_ignoring_case(p: Seq<char>, suffix: Seq<char>) -> bool {
    suffix.len() <= p.len() && forall|j: int|
        #![trigger suffix[j]]
        0 <= j < suffix.len() ==> folded(p[p.len() - suffix.len() + j]) == folded(suffix[j])
}

/// `p` already ends with one of the suffixes of `table`.
pub open spec fn has_listed_suffix(p: Seq<char>, table: Seq<Seq<char>>) -> bool {
    exists|k: int| 0 <= k < table.len() && ends_with_ignoring_case(p, #[trigger] table[k])
}

/// What one candidate expands to: itself alone when it already carries a listed
/// suffix, else one candidate per suffix, in table order.
pub open spec fn expand_one(p: Seq<char>, table: Seq<Seq<char>>) -> Seq<Seq<char>> {
    if has_listed_suffix(p, table) {
        seq![p]
    } else {
        table.map_values(|e: Seq<char>| p + e)
    }
}

/// The expansions of all candidates, one after another, in candidate order.
pub open spec fn expand_all(c: Seq<Seq<char>>, table: Seq<Seq<char>>) -> Seq<Seq<char>>
    decreases c.len(),
{
    if c.len() == 0 {
        Seq::empty()
    } else {
        expand_all(c.drop_last(), table) + expand_one(c.last(), table)
    }
}

/// A segment names a suffix when it begins with `.`.
pub open spec fn is_suffix_entry(s: Seq<char>) -> bool {
    s.len() > 0 && s[0] == '.'
}

/// The segments that name a suffix, in order; the others are dropped.
pub open spec fn suffix_entries(segs: Seq<Seq<char>>) -> Seq<Seq<char>>
    decreases segs.len(),
{
    if segs.len() == 0 {
        Seq::empty()
    } else {
        let rest = suffix_entries(segs.drop_last());
        if is_suffix_entry(segs.last()) {
            rest.push(segs.last())
        } else {
            rest
        }
    }
}

/// How a platform turns candidates into the paths its loader would try.
pub enum Expansion {
    /// Runnability does not depend on a suffix: candidates pass unchanged.
    Unchanged,
    /// A program must carry one of these suffixes (each with its leading `.`).
    Suffixes(Vec<String>),
}

impl Expansion {
    /// The candidates that this expansion makes of `c`.
    pub open spec fn expand(&self, c: Seq<Seq<char>>) -> Seq<Seq<char>> {
        match self {
            Expansion::Unchanged => c,
            Expansion::Suffixes(t) => expand_all(c, views(t@)),
        }
    }
}

proof fn one_candidate_expands_alone(p: Seq<char>, table: Seq<Seq<char>>)
    ensures
        expand_all(seq![p], table) == expand_one(p, table),
{
    let c = seq![p];
    assert(c.drop_last() =~= Seq::<Seq<char>>::empty());
    assert(c.last() == p);
    assert(expand_all(c.drop_last(), table) + expand_one(p, table) =~= expand_one(p, table));
}

/// Without a suffix requirement, expansion hands the candidates back unchanged.
pub proof fn unchanged_expansion_is_identity(c: Seq<Seq<char>>)
    ensures
        Expansion::Unchanged.expand(c) == c,
{
}

/// A candidate that already ends in a listed suffix expands to itself alone.
pub proof fn suffixed_candidate_expands_to_itself(p: Seq<char>, table: Seq<Seq<char>>)
    requires
        has_listed_suffix(p, table),
    ensures
        expand_all(seq![p], table) == seq![p],
{
    one_candidate_expands_alone(p, table);
    assert(expand_one(p, table) == seq![p]);
}

/// A candidate without a listed suffix expands to one candidate per suffix,
/// each the candidate with that suffix appended, in table order.
pub proof fn unsuffixed_candidate_takes_each_suffix(p: Seq<char>, table: Seq<Seq<char>>)
    requires
        !has_listed_suffix(p, table),
    ensures
        expand_all(seq![p], table).len() == table.len(),
        forall|k: int| 0 <= k < table.len() ==> #[trigger] expand_all(seq![p], table)[k] == p + table[k],
{
    one_candidate_expands_alone(p, table);
    assert(expand_all(seq![p], table) =~= table.map_values(|e: Seq<char>| p + e));
}

/// Builds the suffix table from its `;`-separated source value, keeping the
/// segments that begin with `.` and dropping the others.
pub fn parse_extension_table(value: &str) -> (r: Vec<String>)
    ensures
        views(r@) == suffix_entries(split_on(value@, ';')),
{
    let segs = split_list(value, ';');
    let mut out: Vec<String> = Vec::new();
    let mut i: usize = 0;
    assert(views(segs@).subrange(0, 0) =~= Seq::<Seq<char>>::empty());
    assert(views(out@) =~= Seq::<Seq<char>>::empty());
    while i < segs.len()
        invariant
            i <= segs@.len(),
            views(out@) == suffix_entries(views(segs@).subrange(0, i as int)),
        decreases segs@.len() - i,
    {
        let seg = &segs[i];
        let ghost before = views(out@);
        assert(views(segs@).subrange(0, i as int + 1).drop_last() == views(segs@).subrange(
            0,
            i as int,
        ));
        assert(views(segs@)[i as int] == seg@);
        if seg.as_str().unicode_len() > 0 && seg.as_str().get_char(0) == '.' {
            out.push(seg.clone());
            assert(views(out@) =~= before.push(seg@));
        }
        i = i + 1;
    }
    assert(views(segs@).subrange(0, segs@.len() as int) == views(segs@));
    out
}

fn fold_char(c: char) -> (r: u32)
    ensures
        r == folded(c),
{
    let x = c as u32;
    if 65 <= x && x <= 90 {
        x + 32
    } else {
        x
    }
}

/// Whether `p` ends with `suffix`, ASCII case aside.
pub fn ends_with_ignoring_ascii_case(p: &str, suffix: &str) -> (r: bool)
    ensures
        r == ends_with_ignoring_case(p@, suffix@),
{
    let n = p.unicode_len();
    let m = suffix.unicode_len();
    if m > n {
        return false;
    }
    let mut j: usize = 0;
    while j < m
        invariant
            n == p@.len(),
            m == suffix@.len(),
            m <= n,
            j <= m,
            forall|k: int| 0 <= k < j ==> folded(p@[n - m + k]) == folded(#[trigger] suffix@[k]),
        decreases m - j,
    {
        if fold_char(p.get_char(n - m + j)) != fold_char(suffix.get_char(j)) {
            return false;
        }
        j = j + 1;
    }
    true
}

/// Whether `p` already ends with one of the suffixes of `table`.
pub fn has_executable_extension(p: &str, table: &Vec<String>) -> (r: bool)
    ensures
        r == has_listed_suffix(p@, views(table@)),
{
    let mut i: usize = 0;
    while i < table.len()
        invariant
            i <= table@.len(),
            forall|k: int| 0 <= k < i ==> !ends_with_ignoring_case(p@, #[trigger] views(table@)[k]),
        decreases table@.len() - i,
    {
        if ends_with_ignoring_ascii_case(p, table[i].as_str()) {
            assert(views(table@)[i as int] == table@[i as int]@);
            return true;
        }
        i = i + 1;
    }
    false
}

} // verus!
