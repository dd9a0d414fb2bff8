//! Line search over text: split text into lines and keep those containing a
//! query, case-sensitively or case-insensitively.

use vstd::prelude::*;
use vstd::slice::slice_index_get;

verus! {

/// Whether `needle` occurs contiguously inside `hay`.
pub open spec fn spec_contains(hay: Seq<char>, needle: Seq<char>) -> bool {
    exists|i: int|
        0 <= i && i + needle.len() <= hay.len() && #[trigger] hay.subrange(i, i + needle.len())
            == needle
}

/// Whether `needle` occurs in `hay` starting exactly at position `i`.
fn matches_at(hay: &str, needle: &str, i: usize, n: usize, m: usize) -> (b: bool)
    requires
        n == hay@.len(),
        m == needle@.len(),
        i + m <= n,
    ensures
        b == (hay@.subrange(i as int, i + m) == needle@),
{
    let mut j: usize = 0;
    while j < m
        invariant
            j <= m,
            n == hay@.len(),
            m == needle@.len(),
            i + m <= n,
            forall|k: int| 0 <= k < j ==> hay@[i + k] == needle@[k],
        decreases m - j,
    {
        if hay.get_char(i + j) != needle.get_char(j) {
            proof {
                assert(hay@.subrange(i as int, i + m)[j as int] != needle@[j as int]);
            }
            return false;
        }
        j += 1;
    }
    proof {
        assert(hay@.subrange(i as int, i + m) =~= needle@);
    }
    true
}

/// Whether `needle` occurs contiguously anywhere in `hay`; an empty needle
/// occurs in every text.
pub fn contains_substr(hay: &str, needle: &str) -> (b: bool)
    ensures
        b == spec_contains(hay@, needle@),
{
    let n = hay.unicode_len();
    let m = needle.unicode_len();
    if m > n {
        return false;
    }
    let mut i: usize = 0;
    while i < n - m
        invariant
            m <= n,
            n == hay@.len(),
            m == needle@.len(),
            i <= n - m,
            forall|k: int| 0 <= k < i ==> #[trigger] hay@.subrange(k, k + m) != needle@,
        decreases n - m - i,
    {
        if matches_at(hay, needle, i, n, m) {
            return true;
        }
        i += 1;
    }
    matches_at(hay, needle, n - m, n, m)
}

/// The position of the first line feed in `s`, or `s.len()` when there is
/// none.
pub open spec fn first_nl(s: Seq<char>) -> int
    decreases s.len(),
{
    if s.len() == 0 {
        0
    } else if s[0] == '\n' {
        0
    } else {
        1 + first_nl(s.drop_first())
    }
}

/// A line's content: the text before its line feed, with a carriage return
/// immediately before the line feed not counted as content.
pub open spec fn chop_cr(line: Seq<char>) -> Seq<char> {
    if line.len() > 0 && line.last() == '\r' {
        line.drop_last()
    } else {
        line
    }
}

/// The lines of `s`: pieces separated by line feeds, each with a carriage
/// return before the line feed stripped; a final line feed ends the last
/// line rather than opening an empty one, and text after the last line feed
/// is a line of its own, kept as it stands.
pub open spec fn spec_lines(s: Seq<char>) -> Seq<Seq<char>>
    decreases s.len(),
{
    if s.len() == 0 {
        Seq::empty()
    } else {
        let i = first_nl(s);
        if 0 <= i < s.len() {
            seq![chop_cr(s.subrange(0, i))] + spec_lines(s.subrange(i + 1, s.len() as int))
        } else {
            seq![s]
        }
    }
}

/// `first_nl` is exactly the position of the first line feed: it is pinned
/// by there being no line feed before it and one at it (or the end of the
/// text).
proof fn lemma_first_nl_at(s: Seq<char>, m: int)
    requires
        0 <= m <= s.len(),
        forall|k: int| 0 <= k < m ==> s[k] != '\n',
        m < s.len() ==> s[m] == '\n',
    ensures
        first_nl(s) == m,
    decreases s.len(),
{
    if s.len() == 0 {
    } else if s[0] == '\n' {
    } else {
        lemma_first_nl_at(s.drop_first(), m - 1);
    }
}

/// Split `text` into its lines, as `spec_lines` describes them.
pub fn split_lines<'a>(text: &'a str) -> (lines: Vec<&'a str>)
    ensures
        lines.deep_view() == spec_lines(text@),
{
    let n = text.unicode_len();
    let mut lines: Vec<&str> = Vec::new();
    let mut start: usize = 0;
    proof {
        assert(text@.subrange(0, n as int) =~= text@);
        assert(lines.deep_view() + spec_lines(text@) =~= spec_lines(text@));
    }
    while start < n
        invariant
            start <= n,
            n == text@.len(),
            spec_lines(text@) == lines.deep_view() + spec_lines(
                text@.subrange(start as int, n as int),
            ),
        decreases n - start,
    {
        let ghost rem = text@.subrange(start as int, n as int);
        let mut j: usize = start;
        while j < n && text.get_char(j) != '\n'
            invariant
                start <= j <= n,
                n == text@.len(),
                forall|k: int| start <= k < j ==> text@[k] != '\n',
            decreases n - j,
        {
            j += 1;
        }
        proof {
            assert forall|k: int| 0 <= k < j - start implies rem[k] != '\n' by {
                assert(rem[k] == text@[start + k]);
            }
            if (j as int) < n {
                assert(rem[j - start] == text@[j as int]);
            }
            lemma_first_nl_at(rem, j - start);
        }
        let end = if j < n && j > start && text.get_char(j - 1) == '\r' {
            j - 1
        } else {
            j
        };
        let line = text.substring_char(start, end);
        let ghost prev = lines.deep_view();
        lines.push(line);
        proof {
            assert(lines.deep_view() =~= prev.push(line@));
        }
        if j == n {
            proof {
                assert(line@ =~= rem);
                assert(spec_lines(rem) =~= seq![rem]);
                assert(prev + spec_lines(rem) =~= lines.deep_view());
                assert(spec_lines(text@.subrange(n as int, n as int))
                    =~= Seq::<Seq<char>>::empty());
                assert(lines.deep_view() + spec_lines(text@.subrange(n as int, n as int))
                    =~= lines.deep_view());
            }
            start = n;
        } else {
            proof {
                assert(rem.subrange(0, j - start) =~= text@.subrange(start as int, j as int));
                assert(line@ =~= chop_cr(rem.subrange(0, j - start)));
                let tail = text@.subrange(j + 1, n as int);
                assert(rem.subrange(j - start + 1, rem.len() as int) =~= tail);
                assert(spec_lines(rem) =~= seq![line@] + spec_lines(tail));
                assert(prev + spec_lines(rem) =~= lines.deep_view() + spec_lines(tail));
            }
            start = j + 1;
        }
    }
    proof {
        assert(spec_lines(text@.subrange(start as int, n as int)) =~= Seq::<Seq<char>>::empty());
        assert(lines.deep_view() =~= spec_lines(text@));
    }
    lines
}

/// The lowercase form of a sequence of characters, as Unicode lowercasing
/// maps it; it depends on the characters alone.
pub uninterp spec fn lower_of(s: Seq<char>) -> Seq<char>;

/// Relies on str::to_lowercase: the result is determined by the characters
/// of the input alone.
#[verifier::external_body]
fn to_lowercase(s: &str) -> (r: String)
    ensures
        r@ == lower_of(s@),
{
    s.to_lowercase()
}

/// Filtering a sequence grown by one element keeps the filtered prefix and
/// appends the new element exactly when it satisfies the predicate.
proof fn lemma_filter_push(s: Seq<Seq<char>>, x: Seq<char>, pred: spec_fn(Seq<char>) -> bool)
    ensures
        s.push(x).filter(pred) == if pred(x) {
            s.filter(pred).push(x)
        } else {
            s.filter(pred)
        },
{
    reveal_with_fuel(Seq::filter, 2);
    assert(s.push(x).drop_last() =~= s);
    assert(s.push(x).last() == x);
    assert(s.push(x).len() == s.len() + 1);
}

/// The lines of `contents` that contain `query`.
pub open spec fn spec_search(query: Seq<char>, contents: Seq<char>) -> Seq<Seq<char>> {
    spec_lines(contents).filter(|line: Seq<char>| spec_contains(line, query))
}

/// The lines of `contents` that contain `query` once both are lowercased.
pub open spec fn spec_search_insensitive(query: Seq<char>, contents: Seq<char>) -> Seq<Seq<char>> {
    spec_lines(contents).filter(|line: Seq<char>| spec_contains(lower_of(line), lower_of(query)))
}

/// Keep exactly the lines of `contents` that contain `query`, in order.
pub fn search<'a>(query: &str, contents: &'a str) -> (r: Vec<&'a str>)
    ensures
        r.deep_view() == spec_search(query@, contents@),
{
    let lines = split_lines(contents);
    let ghost pred = |line: Seq<char>| spec_contains(line, query@);
    let mut r: Vec<&str> = Vec::new();
    let n = lines.len();
    let mut i: usize = 0;
    while i < n
        invariant
            i <= n,
            n == lines@.len(),
            pred == (|line: Seq<char>| spec_contains(line, query@)),
            lines.deep_view() == spec_lines(contents@),
            r.deep_view() == lines.deep_view().take(i as int).filter(pred),
        decreases n - i,
    {
        let line = lines[i];
        proof {
            assert(lines.deep_view()[i as int] == lines@[i as int]@);
        }
        let ghost prev = r.deep_view();
        if contains_substr(line, query) {
            r.push(line);
            proof {
                assert(r.deep_view() =~= prev.push(line@));
            }
        }
        proof {
            let lv = lines.deep_view();
            assert(lv.take(i + 1) =~= lv.take(i as int).push(line@));
            lemma_filter_push(lv.take(i as int), line@, pred);
            assert(r.deep_view() == lv.take(i + 1).filter(pred));
        }
        i += 1;
    }
    proof {
        assert(lines.deep_view().take(n as int) =~= lines.deep_view());
    }
    r
}

/// Keep exactly the lines of `contents` that contain `query` when case is
/// ignored: a line matches when its lowercase form contains the lowercase
/// form of the query. The lines are returned as they stand in `contents`.
pub fn search_insensitive<'a>(query: &str, contents: &'a str) -> (r: Vec<&'a str>)
    ensures
        r.deep_view() == spec_search_insensitive(query@, contents@),
{
    let query_lower = to_lowercase(query);
    let lines = split_lines(contents);
    let ghost pred = |line: Seq<char>| spec_contains(lower_of(line), lower_of(query@));
    let mut r: Vec<&str> = Vec::new();
    let n = lines.len();
    let mut i: usize = 0;
    while i < n
        invariant
            i <= n,
            n == lines@.len(),
            pred == (|line: Seq<char>| spec_contains(lower_of(line), lower_of(query@))),
            query_lower@ == lower_of(query@),
            lines.deep_view() == spec_lines(contents@),
            r.deep_view() == lines.deep_view().take(i as int).filter(pred),
        decreases n - i,
    {
        let line = lines[i];
        proof {
            assert(lines.deep_view()[i as int] == lines@[i as int]@);
        }
        let line_lower = to_lowercase(line);
        let ghost prev = r.deep_view();
        if contains_substr(line_lower.as_str(), query_lower.as_str()) {
            r.push(line);
            proof {
                assert(r.deep_view() =~= prev.push(line@));
            }
        }
        proof {
            let lv = lines.deep_view();
            assert(lv.take(i + 1) =~= lv.take(i as int).push(line@));
            lemma_filter_push(lv.take(i as int), line@, pred);
            assert(r.deep_view() == lv.take(i + 1).filter(pred));
        }
        i += 1;
    }
    proof {
        assert(lines.deep_view().take(n as int) =~= lines.deep_view());
    }
    r
}

/// What a run of the line-search program was asked to do: the query, the
/// path of the file to search, and whether case is ignored.
pub struct Config<'a> {
    pub query: &'a str,
    pub file_path: &'a str,
    pub ignore_case: bool,
}

impl<'a> Config<'a> {
    /// Read a configuration out of an argument list shaped as the program
    /// receives it: the program's own name first, then the query, then the
    /// file path. Fewer than three entries leave nothing to search for, and
    /// are rejected. Whether case is ignored comes from the caller's
    /// environment and is passed in as a plain flag.
    pub fn build(args: &'a [String], ignore_case: bool) -> (r: Result<Config<'a>, &'static str>)
        ensures
            r is Ok <==> args@.len() >= 3,
            match r {
                Ok(config) => {
                    &&& config.query@ == args@[1]@
                    &&& config.file_path@ == args@[2]@
                    &&& config.ignore_case == ignore_case
                },
                Err(message) => args@.len() < 3 && message@ == "Not enough arguments"@,
            },
    {
        if args.len() < 3 {
            return Err("Not enough arguments");
        }
        let query = slice_index_get(args, 1).as_str();
        let file_path = slice_index_get(args, 2).as_str();
        Ok(Config { query, file_path, ignore_case })
    }
}

} // verus!
