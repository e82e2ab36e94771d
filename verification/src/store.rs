//! The user store's text format: one registered name per line, LF ends a
//! line.
//!
//! The surrounding process reads and appends the file; the library says
//! what the text means.  `spec_lines` is the meaning of a store file;
//! `parse_lines` recovers the names from it and `registration_line` is the
//! one line an enrolment appends.

use vstd::prelude::*;
use vstd::string::StrSliceExecFns;

verus! {

/// The lines still to come when `cur` has been read since the last line
/// break and `rest` is the unread text.  A final line break closes the last
/// line; text after the last break is one more line.
pub open spec fn spec_lines_from(cur: Seq<char>, rest: Seq<char>) -> Seq<Seq<char>>
    decreases rest.len(),
{
    if rest.len() == 0 {
        if cur.len() == 0 {
            Seq::empty()
        } else {
            seq![cur]
        }
    } else if rest[0] == '\n' {
        seq![cur] + spec_lines_from(Seq::empty(), rest.drop_first())
    } else {
        spec_lines_from(cur.push(rest[0]), rest.drop_first())
    }
}

/// The lines of a store file.
pub open spec fn spec_lines(s: Seq<char>) -> Seq<Seq<char>> {
    spec_lines_from(Seq::empty(), s)
}

/// The views of a vector of strings.
pub open spec fn spec_views(v: Seq<String>) -> Seq<Seq<char>> {
    v.map_values(|x: String| x@)
}

/// Split a store file into the names it holds, one per line.
pub fn parse_lines(contents: &str) -> (r: Vec<String>)
    ensures
        spec_views(r@) == spec_lines(contents@),
{
    let mut r: Vec<String> = Vec::new();
    let n = contents.unicode_len();
    let mut start: usize = 0;
    let mut i: usize = 0;
    proof {
        assert(contents@.subrange(0, 0) =~= Seq::<char>::empty());
        assert(contents@.skip(0) =~= contents@);
        assert(spec_views(r@) =~= Seq::<Seq<char>>::empty());
    }
    while i < n
        invariant
            start <= i <= n,
            n == contents@.len(),
            spec_views(r@) + spec_lines_from(
                contents@.subrange(start as int, i as int),
                contents@.skip(i as int),
            ) =~= spec_lines(contents@),
        decreases n - i,
    {
        let c = contents.get_char(i);
        if c == '\n' {
            let line = contents.substring_char(start, i);
            let ghost pre = r@;
            r.push(String::from_str(line));
            proof {
                assert(contents@.skip(i as int)[0] == '\n');
                assert(contents@.skip(i as int).drop_first() =~= contents@.skip(i as int + 1));
                assert(contents@.subrange(i as int + 1, i as int + 1) =~= Seq::<char>::empty());
                assert(spec_views(r@) =~= spec_views(pre).push(line@));
                assert(spec_views(pre) + (seq![contents@.subrange(start as int, i as int)]
                    + spec_lines_from(Seq::empty(), contents@.skip(i as int + 1))) =~= spec_views(
                    r@,
                ) + spec_lines_from(
                    contents@.subrange(i as int + 1, i as int + 1),
                    contents@.skip(i as int + 1),
                ));
            }
            start = i + 1;
        } else {
            proof {
                assert(contents@.skip(i as int)[0] == c);
                assert(contents@.skip(i as int).drop_first() =~= contents@.skip(i as int + 1));
                assert(contents@.subrange(start as int, i as int).push(c) =~= contents@.subrange(
                    start as int,
                    i as int + 1,
                ));
            }
        }
        i = i + 1;
    }
    if start < n {
        let line = contents.substring_char(start, n);
        let ghost pre = r@;
        r.push(String::from_str(line));
        proof {
            assert(contents@.skip(n as int) =~= Seq::<char>::empty());
            assert(spec_views(r@) =~= spec_views(pre).push(line@));
            assert(spec_views(r@) =~= spec_lines(contents@));
        }
    } else {
        proof {
            assert(contents@.skip(n as int) =~= Seq::<char>::empty());
            assert(contents@.subrange(start as int, n as int) =~= Seq::<char>::empty());
            assert(spec_views(r@) =~= spec_lines(contents@));
        }
    }
    r
}

/// The line that registering `name` appends to the store file.
pub fn registration_line(name: &String) -> (r: String)
    ensures
        r@ == name@ + "\n"@,
{
    let mut line = name.clone();
    line.append("\n");
    line
}

/// Whether any line of the store file reads exactly `name`.
pub fn user_in_file(contents: &str, name: &String) -> (r: bool)
    ensures
        r <==> (exists|i: int|
            0 <= i < spec_lines(contents@).len() && spec_lines(contents@)[i] == name@),
{
    let lines = parse_lines(contents);
    let m = lines.len();
    let mut i: usize = 0;
    while i < m
        invariant
            i <= m,
            m == lines@.len(),
            spec_views(lines@) == spec_lines(contents@),
            forall|j: int| 0 <= j < i ==> spec_lines(contents@)[j] != name@,
        decreases m - i,
    {
        if lines[i] == *name {
            proof {
                assert(spec_lines(contents@)[i as int] == lines@[i as int]@);
            }
            return true;
        }
        proof {
            assert(spec_lines(contents@)[i as int] == lines@[i as int]@);
        }
        i = i + 1;
    }
    false
}

} // verus!
