//! A line-based text filter: split a text into lines, and keep the lines
//! that contain a query, either exactly or up to case. Splitting follows
//! the usual convention: lines end at a line feed, a carriage return
//! directly before a line feed is dropped, and a final line without a
//! trailing line feed is kept as it stands.

use vstd::prelude::*;
use vstd::string::StrSliceExecFns;

verus! {

/// `needle` occurs contiguously somewhere in `hay`.
pub open spec fn contains_seq(hay: Seq<char>, needle: Seq<char>) -> bool {
    exists|i: int|
        0 <= i <= hay.len() - needle.len() && #[trigger] hay.subrange(i, i + needle.len() as int)
            == needle
}

/// The index of the first line feed at or after `i`, or the length of `s`
/// when there is none.
pub open spec fn first_nl_from(s: Seq<char>, i: int) -> int
    decreases s.len() - i,
{
    if i < 0 || i >= s.len() {
        s.len() as int
    } else if s[i] == '\n' {
        i
    } else {
        first_nl_from(s, i + 1)
    }
}

proof fn lemma_first_nl_from(s: Seq<char>, i: int)
    requires
        0 <= i <= s.len(),
    ensures
        i <= first_nl_from(s, i) <= s.len(),
        forall|k: int| i <= k < first_nl_from(s, i) ==> s[k] != '\n',
        first_nl_from(s, i) < s.len() ==> s[first_nl_from(s, i)] == '\n',
    decreases s.len() - i,
{
    if i < s.len() && s[i] != '\n' {
        lemma_first_nl_from(s, i + 1);
    }
}

/// Drops one trailing carriage return, if any.
pub open spec fn strip_cr(l: Seq<char>) -> Seq<char> {
    if l.len() > 0 && l.last() == '\r' {
        l.drop_last()
    } else {
        l
    }
}

/// The line starting at `pos` and running up to `end`: a line closed by a
/// line feed loses a carriage return directly before it, while the final
/// line of the text keeps everything.
pub open spec fn line_at(s: Seq<char>, pos: int, end: int) -> Seq<char> {
    if end < s.len() {
        strip_cr(s.subrange(pos, end))
    } else {
        s.subrange(pos, end)
    }
}

/// The lines of a text, in order.
pub open spec fn line_split(s: Seq<char>) -> Seq<Seq<char>>
    decreases s.len(),
    via line_split_decreases
{
    if s.len() == 0 {
        Seq::empty()
    } else {
        let e = first_nl_from(s, 0);
        if e == s.len() {
            seq![s]
        } else {
            seq![strip_cr(s.subrange(0, e))] + line_split(s.subrange(e + 1, s.len() as int))
        }
    }
}

#[via_fn]
proof fn line_split_decreases(s: Seq<char>) {
    if s.len() != 0 {
        lemma_first_nl_from(s, 0);
    }
}

/// A line matches a plain search when it contains the query as given.
pub open spec fn plain_pred(query: Seq<char>) -> spec_fn(Seq<char>) -> bool {
    |l: Seq<char>| contains_seq(l, query)
}

/// A line matches a case-insensitive search when its lowercased form
/// contains the lowercased query.
pub open spec fn folded_pred(query: Seq<char>) -> spec_fn(Seq<char>) -> bool {
    |l: Seq<char>| contains_seq(lower_of(l), lower_of(query))
}

/// The views of a sequence of borrowed lines.
pub open spec fn views_of(lines: Seq<&str>) -> Seq<Seq<char>> {
    lines.map_values(|l: &str| l@)
}

/// What `str::to_lowercase` returns for a given sequence of characters;
/// the result depends on the characters alone.
pub uninterp spec fn lower_of(s: Seq<char>) -> Seq<char>;

/// Relies on str::to_lowercase: lowercases the string, a function of its
/// characters alone.
#[verifier::external_body]
fn lowercase(s: &str) -> (r: String)
    ensures
        r@ == lower_of(s@),
{
    s.to_lowercase()
}

/// Filtering one more element appends it to the filtered sequence exactly
/// when it satisfies the predicate.
proof fn lemma_filter_push<A>(s: Seq<A>, x: A, pred: spec_fn(A) -> bool)
    ensures
        (s.push(x)).filter(pred) == if pred(x) {
            s.filter(pred).push(x)
        } else {
            s.filter(pred)
        },
{
    reveal(Seq::filter);
    assert((s.push(x)).drop_last() =~= s);
    assert((s.push(x)).last() == x);
}

/// Whether `needle` sits in `hay` exactly at position `at`.
fn match_at(hay: &str, needle: &str, at: usize) -> (r: bool)
    requires
        at + needle@.len() <= hay@.len(),
    ensures
        r == (hay@.subrange(at as int, at as int + needle@.len() as int) == needle@),
{
    let n = hay.unicode_len();
    let m = needle.unicode_len();
    let ghost w = hay@.subrange(at as int, at as int + needle@.len() as int);
    let mut j: usize = 0;
    while j < m
        invariant
            j <= m,
            m == needle@.len(),
            n == hay@.len(),
            at + m <= n,
            w == hay@.subrange(at as int, at as int + m as int),
            forall|k: int| 0 <= k < j ==> w[k] == needle@[k],
        decreases m - j,
    {
        if hay.get_char(at + j) != needle.get_char(j) {
            proof {
                assert(w[j as int] == hay@[at + j]);
                assert(w[j as int] != needle@[j as int]);
            }
            return false;
        }
        proof {
            assert(w[j as int] == hay@[at + j]);
        }
        j = j + 1;
    }
    proof {
        assert(w =~= needle@);
    }
    true
}

/// Whether `needle` occurs anywhere in `hay`. The empty needle occurs in
/// every string.
pub fn str_contains(hay: &str, needle: &str) -> (r: bool)
    ensures
        r == contains_seq(hay@, needle@),
{
    let n = hay.unicode_len();
    let m = needle.unicode_len();
    if m > n {
        return false;
    }
    if m == 0 {
        proof {
            assert(hay@.subrange(0, 0 + needle@.len() as int) =~= needle@);
        }
        return true;
    }
    let mut i: usize = 0;
    while i <= n - m
        invariant
            1 <= m <= n,
            n == hay@.len(),
            m == needle@.len(),
            i <= n - m + 1,
            forall|k: int|
                0 <= k < i ==> #[trigger] hay@.subrange(k, k + needle@.len() as int) != needle@,
        decreases n - i,
    {
        if match_at(hay, needle, i) {
            proof {
                assert(0 <= i <= hay@.len() - needle@.len());
            }
            return true;
        }
        i = i + 1;
    }
    false
}

/// Compares two strings character by character.
pub fn str_eq_str(a: &str, b: &str) -> (r: bool)
    ensures
        r == (a@ == b@),
{
    let na = a.unicode_len();
    let nb = b.unicode_len();
    if na != nb {
        return false;
    }
    let mut i: usize = 0;
    while i < na
        invariant
            i <= na,
            na == a@.len(),
            na == b@.len(),
            forall|k: int| 0 <= k < i ==> a@[k] == b@[k],
        decreases na - i,
    {
        if a.get_char(i) != b.get_char(i) {
            return false;
        }
        i = i + 1;
    }
    proof {
        assert(a@ =~= b@);
    }
    true
}

/// Finds where the line that starts at `pos` ends: at the next line feed,
/// or at the end of the text.
fn next_line_end(contents: &str, pos: usize) -> (end: usize)
    requires
        pos <= contents@.len(),
    ensures
        pos <= end <= contents@.len(),
        forall|k: int| pos <= k < end ==> contents@[k] != '\n',
        end < contents@.len() ==> contents@[end as int] == '\n',
{
    let n = contents.unicode_len();
    let mut end: usize = pos;
    while end < n && contents.get_char(end) != '\n'
        invariant
            pos <= end <= n,
            n == contents@.len(),
            forall|k: int| pos <= k < end ==> contents@[k] != '\n',
        decreases n - end,
    {
        end = end + 1;
    }
    end
}

/// Cuts the line `[pos, end)` out of the text, dropping a carriage return
/// directly before a closing line feed.
fn take_line<'a>(contents: &'a str, pos: usize, end: usize) -> (line: &'a str)
    requires
        pos <= end <= contents@.len(),
    ensures
        line@ == line_at(contents@, pos as int, end as int),
{
    let n = contents.unicode_len();
    let stripped_end = if end < n && end > pos && contents.get_char(end - 1) == '\r' {
        end - 1
    } else {
        end
    };
    let line = contents.substring_char(pos, stripped_end);
    proof {
        let l = contents@.subrange(pos as int, end as int);
        if end < n && end > pos && contents@[end - 1] == '\r' {
            assert(l.last() == contents@[end - 1]);
            assert(l.drop_last() =~= contents@.subrange(pos as int, end - 1));
        } else if end > pos {
            assert(l.last() == contents@[end - 1]);
        }
    }
    line
}

/// One unfolding of `line_split` at a line boundary found by scanning.
proof fn lemma_line_split_step(s: Seq<char>, pos: int, end: int)
    requires
        0 <= pos < s.len(),
        pos <= end <= s.len(),
        forall|k: int| pos <= k < end ==> s[k] != '\n',
        end < s.len() ==> s[end] == '\n',
    ensures
        end < s.len() ==> line_split(s.subrange(pos, s.len() as int)) == seq![
            line_at(s, pos, end),
        ] + line_split(s.subrange(end + 1, s.len() as int)),
        end == s.len() ==> line_split(s.subrange(pos, s.len() as int)) == seq![
            line_at(s, pos, end),
        ],
{
    let n = s.len() as int;
    let t = s.subrange(pos, n);
    lemma_first_nl_from(t, 0);
    let e = first_nl_from(t, 0);
    assert forall|k: int| 0 <= k < end - pos implies t[k] != '\n' by {
        assert(t[k] == s[pos + k]);
    }
    if e < end - pos {
        assert(t[e] != '\n');
        assert(false);
    }
    if e > end - pos {
        assert(end < s.len());
        assert(t[end - pos] == s[end]);
        assert(false);
    }
    assert(e == end - pos);
    if end < s.len() {
        assert(t.subrange(0, e) =~= s.subrange(pos, end));
        assert(t.subrange(e + 1, t.len() as int) =~= s.subrange(end + 1, n));
        assert(line_at(s, pos, end) == strip_cr(t.subrange(0, e)));
    } else {
        assert(e == t.len());
        assert(t =~= s.subrange(pos, end));
        assert(line_at(s, pos, end) == t);
    }
}

/// Returns the lines of `contents` that contain `query`, in order.
pub fn search<'a>(query: &str, contents: &'a str) -> (res: Vec<&'a str>)
    ensures
        views_of(res@) == line_split(contents@).filter(plain_pred(query@)),
{
    let n = contents.unicode_len();
    let mut res: Vec<&str> = Vec::new();
    let mut pos: usize = 0;
    let ghost mut done: Seq<Seq<char>> = Seq::empty();
    proof {
        reveal(Seq::filter);
        assert(contents@.subrange(0, n as int) =~= contents@);
        assert(done + line_split(contents@.subrange(0, n as int)) =~= line_split(contents@));
        assert(views_of(res@) =~= done.filter(plain_pred(query@)));
    }
    while pos < n
        invariant
            pos <= n,
            n == contents@.len(),
            line_split(contents@) == done + line_split(contents@.subrange(pos as int, n as int)),
            views_of(res@) == done.filter(plain_pred(query@)),
        decreases n - pos,
    {
        let ghost pos0 = pos as int;
        let ghost res0 = res@;
        let ghost done0 = done;
        let end = next_line_end(contents, pos);
        let line = take_line(contents, pos, end);
        let hit = str_contains(line, query);
        if hit {
            res.push(line);
        }
        proof {
            done = done.push(line@);
        }
        pos = if end < n { end + 1 } else { n };
        proof {
            lemma_line_split_step(contents@, pos0, end as int);
            lemma_filter_push(done0, line@, plain_pred(query@));
            assert(done0 + seq![line@] =~= done);
            if end == n {
                assert(contents@.subrange(pos as int, n as int) =~= Seq::<char>::empty());
                assert(line_split(contents@.subrange(pos as int, n as int)) =~= Seq::<
                    Seq<char>,
                >::empty());
                assert(done0 + (seq![line@] + line_split(
                    contents@.subrange(pos as int, n as int),
                )) =~= done0 + seq![line@]);
            }
            assert((done0 + seq![line@]) + line_split(contents@.subrange(pos as int, n as int))
                =~= done0 + (seq![line@] + line_split(
                contents@.subrange(pos as int, n as int),
            )));
            if hit {
                assert(views_of(res@) =~= views_of(res0).push(line@));
            }
        }
    }
    proof {
        assert(contents@.subrange(pos as int, n as int) =~= Seq::<char>::empty());
        assert(line_split(contents@.subrange(pos as int, n as int)) =~= Seq::<Seq<char>>::empty());
        assert(done + Seq::<Seq<char>>::empty() =~= done);
    }
    res
}

/// Returns the lines of `contents` whose lowercased form contains the
/// lowercased `query`, in order.
pub fn search_case_insensitive<'a>(query: &str, contents: &'a str) -> (res: Vec<&'a str>)
    ensures
        views_of(res@) == line_split(contents@).filter(folded_pred(query@)),
{
    let lowered_query = lowercase(query);
    let n = contents.unicode_len();
    let mut res: Vec<&str> = Vec::new();
    let mut pos: usize = 0;
    let ghost mut done: Seq<Seq<char>> = Seq::empty();
    proof {
        reveal(Seq::filter);
        assert(contents@.subrange(0, n as int) =~= contents@);
        assert(done + line_split(contents@.subrange(0, n as int)) =~= line_split(contents@));
        assert(views_of(res@) =~= done.filter(folded_pred(query@)));
    }
    while pos < n
        invariant
            pos <= n,
            n == contents@.len(),
            lowered_query@ == lower_of(query@),
            line_split(contents@) == done + line_split(contents@.subrange(pos as int, n as int)),
            views_of(res@) == done.filter(folded_pred(query@)),
        decreases n - pos,
    {
        let ghost pos0 = pos as int;
        let ghost res0 = res@;
        let ghost done0 = done;
        let end = next_line_end(contents, pos);
        let line = take_line(contents, pos, end);
        let lowered_line = lowercase(line);
        let hit = str_contains(lowered_line.as_str(), lowered_query.as_str());
        if hit {
            res.push(line);
        }
        proof {
            done = done.push(line@);
        }
        pos = if end < n { end + 1 } else { n };
        proof {
            lemma_line_split_step(contents@, pos0, end as int);
            lemma_filter_push(done0, line@, folded_pred(query@));
            assert(done0 + seq![line@] =~= done);
            if end == n {
                assert(contents@.subrange(pos as int, n as int) =~= Seq::<char>::empty());
                assert(line_split(contents@.subrange(pos as int, n as int)) =~= Seq::<
                    Seq<char>,
                >::empty());
                assert(done0 + (seq![line@] + line_split(
                    contents@.subrange(pos as int, n as int),
                )) =~= done0 + seq![line@]);
            }
            assert((done0 + seq![line@]) + line_split(contents@.subrange(pos as int, n as int))
                =~= done0 + (seq![line@] + line_split(
                contents@.subrange(pos as int, n as int),
            )));
            if hit {
                assert(views_of(res@) =~= views_of(res0).push(line@));
            }
        }
    }
    proof {
        assert(contents@.subrange(pos as int, n as int) =~= Seq::<char>::empty());
        assert(line_split(contents@.subrange(pos as int, n as int)) =~= Seq::<Seq<char>>::empty());
        assert(done + Seq::<Seq<char>>::empty() =~= done);
    }
    res
}

/// How a search is configured: the query, the file to search, and whether
/// case is ignored.
pub struct Config {
    pub query: String,
    pub file_path: String,
    pub ignore_case: bool,
}

/// Whether case is ignored: an environment value of "1" turns it on;
/// otherwise a fourth argument equal to "1" decides.
pub open spec fn spec_ignore_case(args: Seq<String>, env_val: Option<String>) -> bool {
    if env_val matches Some(v) && v@ == "1"@ {
        true
    } else if args.len() > 3 {
        args[3]@ == "1"@
    } else {
        false
    }
}

/// Whether the fourth argument equals "1".
fn flag_from_args(args: &Vec<String>) -> (r: bool)
    ensures
        r == (args@.len() > 3 && args@[3]@ == "1"@),
{
    if args.len() > 3 {
        str_eq_str(args[3].as_str(), "1")
    } else {
        false
    }
}

impl Config {
    /// Builds a configuration from the argument list and the value of the
    /// case-folding environment variable, if set. Fails exactly when fewer
    /// than three arguments were given.
    pub fn new(args: &Vec<String>, env_val: Option<String>) -> (r: Result<Config, &'static str>)
        ensures
            args@.len() < 3 <==> r is Err,
            r matches Err(e) ==> e@ == "Not enough arguments"@,
            r matches Ok(c) ==> {
                &&& c.query@ == args@[1]@
                &&& c.file_path@ == args@[2]@
                &&& c.ignore_case == spec_ignore_case(args@, env_val)
            },
    {
        if args.len() < 3 {
            return Err("Not enough arguments");
        }
        let query = args[1].clone();
        let file_path = args[2].clone();
        let ignore_case = match env_val {
            Some(v) => {
                if str_eq_str(v.as_str(), "1") {
                    true
                } else {
                    flag_from_args(args)
                }
            },
            None => flag_from_args(args),
        };
        Ok(Config { query, file_path, ignore_case })
    }
}

} // verus!
