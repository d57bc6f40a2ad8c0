//! Finding the lines of a text that contain a query.
use vstd::prelude::*;
use crate::text::{char_views, chars_of, lines_of, split_lines, string_of, same_chars, sub_chars};

verus! {

/// `needle` occurs in `hay`.
pub open spec fn contains_text(hay: Seq<char>, needle: Seq<char>) -> bool {
    exists|i: int| 0 <= i && i + needle.len() <= hay.len() && #[trigger] hay.subrange(i, i + needle.len()) == needle
}

/// Whether `needle` occurs in `hay`, as `str::contains` tells.
pub fn contains_chars(hay: &[char], needle: &[char]) -> (b: bool)
    ensures
        b == contains_text(hay@, needle@),
{
    let n = hay.len();
    let m = needle.len();
    let mut i: usize = 0;
    while i <= n && m <= n - i
        invariant
            n == hay@.len(),
            m == needle@.len(),
            i <= n,
            forall|k: int| 0 <= k < i ==> #[trigger] hay@.subrange(k, k + m) != needle@,
        decreases n - i,
    {
        let window = sub_chars(hay, i, i + m);
        assert(i == n ==> window@ =~= needle@);
        if same_chars(window.as_slice(), needle) {
            return true;
        }
        i += 1;
    }
    assert forall|k: int| 0 <= k && k + m <= n implies #[trigger] hay@.subrange(k, k + m) != needle@ by {}
    false
}

/// The lines of `contents` that contain `query`, in order.
pub fn search(query: &str, contents: &str) -> (r: Vec<String>)
    ensures
        r@.map_values(|s: String| s@) == lines_of(contents@).filter(|l: Seq<char>| contains_text(l, query@)),
{
    let q = chars_of(query);
    let v = chars_of(contents);
    let lines = split_lines(v.as_slice());
    let ghost all = char_views(lines@);
    let ghost pred = |l: Seq<char>| contains_text(l, query@);
    let mut r: Vec<String> = Vec::new();
    let mut i: usize = 0;
    while i < lines.len()
        invariant
            i <= lines@.len(),
            all == char_views(lines@),
            all == lines_of(contents@),
            q@ == query@,
            pred == (|l: Seq<char>| contains_text(l, query@)),
            r@.map_values(|s: String| s@) == all.take(i as int).filter(pred),
        decreases lines.len() - i,
    {
        proof {
            all.take(i as int).lemma_filter_push(all[i as int], pred);
            assert(all.take(i + 1) =~= all.take(i as int).push(all[i as int]));
        }
        let ghost before = r@;
        if contains_chars(lines[i].as_slice(), q.as_slice()) {
            r.push(string_of(lines[i].as_slice()));
            assert(r@.map_values(|s: String| s@) =~= before.map_values(|s: String| s@).push(all[i as int]));
        }
        i += 1;
    }
    assert(all.take(lines@.len() as int) =~= all);
    r
}

} // verus!
