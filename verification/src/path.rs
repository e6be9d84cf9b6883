//! File names and extensions of `/`-separated paths, as `std::path::Path`
//! reads them.

use vstd::prelude::*;
use crate::text::{eq_chars, slice_chars, to_chars};

verus! {

/// The last position before `j` where `c` stands in `p`.
pub open spec fn rfind_upto(p: Seq<char>, c: char, j: int) -> Option<int>
    decreases j,
{
    if j <= 0 || j > p.len() {
        None
    } else if p[j - 1] == c {
        Some(j - 1)
    } else {
        rfind_upto(p, c, j - 1)
    }
}

/// The file name of the path `p[..hi]`: its last component, where that is
/// neither `..` nor the root; empty and `.` components do not count.
pub open spec fn file_name_upto(p: Seq<char>, hi: int) -> Option<Seq<char>>
    decreases hi,
{
    if hi < 0 || hi > p.len() {
        None
    } else {
        let k = rfind_upto(p, '/', hi);
        let start = match k {
            Some(k) => k + 1,
            None => 0,
        };
        if start > hi {
            None
        } else {
            let last = p.subrange(start, hi);
            if last.len() == 0 || last == seq!['.'] {
                match k {
                    Some(k) => if 0 <= k < hi {
                        file_name_upto(p, k)
                    } else {
                        None
                    },
                    None => None,
                }
            } else if last == seq!['.', '.'] {
                None
            } else {
                Some(last)
            }
        }
    }
}

/// The file name of the path `p` (`Path::file_name`).
pub open spec fn file_name(p: Seq<char>) -> Option<Seq<char>> {
    file_name_upto(p, p.len() as int)
}

/// The file name of `p`, or empty where it has none.
pub open spec fn file_name_text(p: Seq<char>) -> Seq<char> {
    match file_name(p) {
        Some(n) => n,
        None => seq![],
    }
}

/// The extension of a file name (`Path::extension`): what follows its last
/// dot, where that dot is not its first character.
pub open spec fn extension(name: Seq<char>) -> Option<Seq<char>> {
    match rfind_upto(name, '.', name.len() as int) {
        Some(d) => if d > 0 {
            Some(name.skip(d + 1))
        } else {
            None
        },
        None => None,
    }
}

/// The path names a Markdown file: its extension is `md`.
pub open spec fn is_markdown(p: Seq<char>) -> bool {
    match file_name(p) {
        Some(n) => extension(n) == Some(seq!['m', 'd']),
        None => false,
    }
}

pub proof fn lemma_rfind_upto(p: Seq<char>, c: char, j: int)
    requires
        j <= p.len(),
    ensures
        rfind_upto(p, c, j) matches Some(k) ==> 0 <= k < j && p[k] == c,
    decreases j,
{
    if j > 0 && p[j - 1] != c {
        lemma_rfind_upto(p, c, j - 1);
    }
}

/// The last position before `j` where `c` stands in `v`.
fn rfind_char_upto(v: &[char], c: char, j: usize) -> (r: Option<usize>)
    requires
        j <= v@.len(),
    ensures
        r matches Some(k) ==> rfind_upto(v@, c, j as int) == Some(k as int),
        r is None ==> rfind_upto(v@, c, j as int) is None,
{
    let mut k = j;
    while k > 0
        invariant
            k <= j <= v@.len(),
            rfind_upto(v@, c, j as int) == rfind_upto(v@, c, k as int),
        decreases k,
    {
        if v[k - 1] == c {
            return Some(k - 1);
        }
        k = k - 1;
    }
    None
}

/// The file name of the path `v`, or empty where it has none.
pub fn file_name_chars(v: &[char]) -> (r: Vec<char>)
    ensures
        r@ == file_name_text(v@),
{
    let mut hi: usize = v.len();
    loop
        invariant
            hi <= v@.len(),
            file_name(v@) == file_name_upto(v@, hi as int),
        decreases hi,
    {
        let k = rfind_char_upto(v, '/', hi);
        proof {
            lemma_rfind_upto(v@, '/', hi as int);
        }
        let start: usize = match k {
            Some(k) => k + 1,
            None => 0,
        };
        let last = slice_chars(v, start, hi);
        let dot: Vec<char> = vec!['.'];
        let dots: Vec<char> = vec!['.', '.'];
        assert(dot@ =~= seq!['.']);
        assert(dots@ =~= seq!['.', '.']);
        if last.len() == 0 || eq_chars(&last, &dot) {
            match k {
                Some(k) => {
                    hi = k;
                },
                None => {
                    return Vec::new();
                },
            }
        } else if eq_chars(&last, &dots) {
            return Vec::new();
        } else {
            return last;
        }
    }
}

/// Whether the path `v` names a Markdown file.
pub fn is_markdown_chars(v: &[char]) -> (b: bool)
    ensures
        b == is_markdown(v@),
{
    let name = file_name_chars(v);
    proof {
        if file_name(v@) is None {
            assert(name@.len() == 0);
        }
    }
    let n = name.len();
    let found = rfind_char_upto(&name, '.', n);
    proof {
        lemma_rfind_upto(name@, '.', n as int);
    }
    let b = match found {
        Some(d) => {
            if d > 0 {
                let ext = slice_chars(&name, d + 1, n);
                assert(ext@ =~= name@.skip(d + 1));
                let md: Vec<char> = vec!['m', 'd'];
                assert(md@ =~= seq!['m', 'd']);
                eq_chars(&ext, &md)
            } else {
                false
            }
        },
        None => false,
    };
    b
}

/// The paths among `paths` that name Markdown files, in order.
pub fn markdown_files(paths: &Vec<String>) -> (r: Vec<String>)
    ensures
        r@.map_values(|s: String| s@) == paths@.map_values(|s: String| s@).filter(
            |p: Seq<char>| is_markdown(p),
        ),
{
    let ghost all = paths@.map_values(|s: String| s@);
    let mut r: Vec<String> = Vec::new();
    let mut i: usize = 0;
    while i < paths.len()
        invariant
            i <= paths@.len(),
            all == paths@.map_values(|s: String| s@),
            r@.map_values(|s: String| s@) == all.take(i as int).filter(|p: Seq<char>| is_markdown(p)),
        decreases paths@.len() - i,
    {
        let p = &paths[i];
        let v = to_chars(p.as_str());
        let ghost before = r@.map_values(|s: String| s@);
        reveal_with_fuel(Seq::<_>::filter, 1);
        assert(all.take(i + 1).drop_last() =~= all.take(i as int));
        assert(all.take(i + 1).last() == p@);
        if is_markdown_chars(&v) {
            r.push(p.clone());
            assert(r@.map_values(|s: String| s@) =~= before.push(p@));
        } else {
            assert(r@.map_values(|s: String| s@) =~= before);
        }
        i = i + 1;
    }
    assert(all.take(paths@.len() as int) =~= all);
    r
}

} // verus!
