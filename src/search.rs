use vstd::prelude::*;

verus! {

/// The lines of a text, as `str::lines` cuts it.
pub uninterp spec fn lines_of(s: Seq<char>) -> Seq<Seq<char>>;

/// A text in lower case, as `str::to_lowercase` gives it.
pub uninterp spec fn lower_of(s: Seq<char>) -> Seq<char>;

/// Whether `q` occurs in `s` as a run of consecutive characters.
pub open spec fn occurs_in(q: Seq<char>, s: Seq<char>) -> bool {
    exists|i: int| 0 <= i && i + q.len() <= s.len() && #[trigger] s.subrange(i, i + q.len()) == q
}

/// The lines, in order, that `keep` holds of.
pub open spec fn kept(lines: Seq<Seq<char>>, keep: spec_fn(Seq<char>) -> bool) -> Seq<Seq<char>>
    decreases lines.len(),
{
    if lines.len() == 0 {
        Seq::empty()
    } else {
        let rest = kept(lines.drop_last(), keep);
        if keep(lines.last()) { rest.push(lines.last()) } else { rest }
    }
}

pub open spec fn views(v: Seq<&str>) -> Seq<Seq<char>> {
    v.map_values(|l: &str| l@)
}

/// Relies on `str::lines`: the text cut at each line end, as slices of it.
#[verifier::external_body]
fn split_lines<'a>(s: &'a str) -> (r: Vec<&'a str>)
    ensures
        views(r@) == lines_of(s@),
{
    s.lines().collect()
}

/// Relies on `str::contains` with a `&str` pattern: whether `q` occurs in `s`.
#[verifier::external_body]
fn has_substring(s: &str, q: &str) -> (r: bool)
    ensures
        r == occurs_in(q@, s@),
{
    s.contains(q)
}

/// Relies on `str::to_lowercase`: the result depends on the characters alone.
#[verifier::external_body]
fn lowercase(s: &str) -> (r: String)
    ensures
        r@ == lower_of(s@),
{
    s.to_lowercase()
}

/// The lines, in order, in which `query` occurs.
pub fn select_lines<'a>(query: &str, lines: &Vec<&'a str>) -> (r: Vec<&'a str>)
    ensures
        views(r@) == kept(views(lines@), |l: Seq<char>| occurs_in(query@, l)),
{
    let ghost keep = |l: Seq<char>| occurs_in(query@, l);
    let mut out: Vec<&'a str> = Vec::new();
    let mut i: usize = 0;
    while i < lines.len()
        invariant
            i <= lines.len(),
            keep == (|l: Seq<char>| occurs_in(query@, l)),
            views(out@) == kept(views(lines@.take(i as int)), keep),
        decreases lines.len() - i,
    {
        let line = lines[i];
        let found = has_substring(line, query);
        let ghost before = out@;
        if found {
            out.push(line);
        }
        proof {
            let next = views(lines@.take(i + 1));
            assert(next.drop_last() =~= views(lines@.take(i as int)));
            assert(next.last() == line@);
            assert(keep(line@) == found);
            if found {
                assert(views(out@) =~= views(before).push(line@));
            } else {
                assert(out@ == before);
            }
        }
        i += 1;
    }
    assert(lines@.take(lines.len() as int) =~= lines@);
    out
}

/// The lines below index `n`, in order, at whose index `keep` holds.
pub open spec fn kept_where(lines: Seq<Seq<char>>, keep: spec_fn(int) -> bool, n: int) -> Seq<
    Seq<char>,
>
    decreases n,
{
    if n <= 0 {
        Seq::empty()
    } else {
        let rest = kept_where(lines, keep, n - 1);
        if keep(n - 1) { rest.push(lines[n - 1]) } else { rest }
    }
}

/// Keeping lines by their index is keeping them by their text, where the two
/// tests agree on every line.
proof fn lemma_kept_where(
    lines: Seq<Seq<char>>,
    keep_at: spec_fn(int) -> bool,
    keep: spec_fn(Seq<char>) -> bool,
    n: int,
)
    requires
        0 <= n <= lines.len(),
        forall|i: int| 0 <= i < lines.len() ==> #[trigger] keep_at(i) == keep(lines[i]),
    ensures
        kept_where(lines, keep_at, n) == kept(lines.take(n), keep),
    decreases n,
{
    if n > 0 {
        lemma_kept_where(lines, keep_at, keep, n - 1);
        assert(lines.take(n).drop_last() =~= lines.take(n - 1));
    }
}

/// The lines, in order, whose folded form (`folded[i]` for `lines[i]`) holds
/// `folded_query`.
pub fn select_lines_folded<'a>(folded_query: &str, lines: &Vec<&'a str>, folded: &Vec<String>) -> (r:
    Vec<&'a str>)
    requires
        folded.len() == lines.len(),
    ensures
        views(r@) == kept_where(
            views(lines@),
            |i: int| occurs_in(folded_query@, folded@[i]@),
            lines.len() as int,
        ),
{
    let ghost keep = |i: int| occurs_in(folded_query@, folded@[i]@);
    let mut out: Vec<&'a str> = Vec::new();
    let mut i: usize = 0;
    while i < lines.len()
        invariant
            i <= lines.len(),
            folded.len() == lines.len(),
            keep == (|i: int| occurs_in(folded_query@, folded@[i]@)),
            views(out@) == kept_where(views(lines@), keep, i as int),
        decreases lines.len() - i,
    {
        let line = lines[i];
        let found = has_substring(folded[i].as_str(), folded_query);
        let ghost before = out@;
        if found {
            out.push(line);
        }
        proof {
            assert(keep(i as int) == found);
            if found {
                assert(views(out@) =~= views(before).push(line@));
            } else {
                assert(out@ == before);
            }
        }
        i += 1;
    }
    out
}

/// The lines of `contents` in which `query` occurs.
pub fn search<'a>(query: &str, contents: &'a str) -> (r: Vec<&'a str>)
    ensures
        views(r@) == kept(lines_of(contents@), |l: Seq<char>| occurs_in(query@, l)),
{
    let lines = split_lines(contents);
    select_lines(query, &lines)
}

/// The lines of `contents` in which `query` occurs, both put in lower case.
pub fn search_case_insensitive<'a>(query: &str, contents: &'a str) -> (r: Vec<&'a str>)
    ensures
        views(r@) == kept(
            lines_of(contents@),
            |l: Seq<char>| occurs_in(lower_of(query@), lower_of(l)),
        ),
{
    let folded_query = lowercase(query);
    let lines = split_lines(contents);
    let mut folded: Vec<String> = Vec::new();
    let mut i: usize = 0;
    while i < lines.len()
        invariant
            i <= lines.len(),
            folded.len() == i,
            forall|j: int| 0 <= j < i ==> (#[trigger] folded@[j])@ == lower_of(lines@[j]@),
        decreases lines.len() - i,
    {
        folded.push(lowercase(lines[i]));
        i += 1;
    }
    let r = select_lines_folded(folded_query.as_str(), &lines, &folded);
    proof {
        let q = folded_query@;
        lemma_kept_where(
            views(lines@),
            |j: int| occurs_in(q, folded@[j]@),
            |l: Seq<char>| occurs_in(q, lower_of(l)),
            lines.len() as int,
        );
        assert(views(lines@).take(lines.len() as int) =~= views(lines@));
    }
    r
}

} // verus!
