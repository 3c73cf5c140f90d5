//! Freeing the agent's port: the process ids that `lsof` lists.
use vstd::prelude::*;
use crate::text::{self, chars_of, decode_lossy, string_of, word_ranges};

verus! {

/// The texts of a list of strings, in order.
pub open spec fn texts(v: Seq<String>) -> Seq<Seq<char>> {
    v.map_values(|s: String| s@)
}

/// The whitespace-separated words of `s`, in order.
pub fn words_of(s: &str) -> (r: Vec<String>)
    ensures
        texts(r@) == text::words(s@),
{
    let chars = chars_of(s);
    let cs = chars.as_slice();
    let n = cs.len();
    let ranges = word_ranges(cs, 0, n);
    let ghost ws = text::words(cs@.subrange(0, n as int));
    assert(cs@.subrange(0, n as int) =~= s@);
    let mut r: Vec<String> = Vec::new();
    let m = ranges.len();
    let mut i: usize = 0;
    while i < m
        invariant
            m == ranges@.len(),
            n == cs@.len(),
            ranges@.len() == ws.len(),
            forall|k: int|
                #![trigger ranges@[k]]
                0 <= k < ranges@.len() ==> 0 <= ranges@[k].0 <= ranges@[k].1 <= n
                    && cs@.subrange(ranges@[k].0 as int, ranges@[k].1 as int) == ws[k],
            i <= m,
            texts(r@) == ws.take(i as int),
        decreases m - i,
    {
        let (a, b) = ranges[i];
        let w = string_of(cs, a, b);
        let ghost old_r = r@;
        r.push(w);
        assert(texts(r@) =~= ws.take(i + 1)) by {
            assert(texts(r@) =~= texts(old_r).push(w@));
        }
        i = i + 1;
    }
    assert(ws.take(m as int) =~= ws);
    r
}

/// The process ids in the raw output of `lsof -ti`, read as UTF-8 with
/// invalid sequences replaced: its whitespace-separated words.
pub fn pids_from_lsof(stdout: &[u8]) -> (r: Vec<String>)
    ensures
        texts(r@) == text::words(text::utf8_lossy(stdout@)),
{
    let out = decode_lossy(stdout);
    words_of(out.as_str())
}

} // verus!
