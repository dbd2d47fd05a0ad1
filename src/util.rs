//! Path helpers.
use vstd::prelude::*;
use crate::text::{chars_of, push_char};

verus! {

/// `path` with each backslash written as a slash.
pub open spec fn forward_slashes(path: Seq<char>) -> Seq<char> {
    path.map_values(|c: char| if c == '\\' { '/' } else { c })
}

/// The index of the last slash of `s`, `-1` if there is none.
pub open spec fn last_slash(s: Seq<char>) -> int
    decreases s.len(),
{
    if s.len() == 0 {
        -1
    } else if s.last() == '/' {
        s.len() - 1
    } else {
        last_slash(s.drop_last())
    }
}

/// The directory part of a file path: what precedes its last separator, or `.`.
pub open spec fn directory_of(file: Seq<char>) -> Seq<char> {
    let p = forward_slashes(file);
    if last_slash(p) >= 0 {
        p.take(last_slash(p))
    } else {
        "."@
    }
}

/// The directory of the file `file`, with `/` as separator; `.` for a bare file name.
pub fn get_directory(file: &str) -> (r: String)
    ensures
        r@ == directory_of(file@),
{
    let x = chars_of(file);
    let ghost p = forward_slashes(file@);
    let mut k: usize = x.len();
    let mut found = false;
    assert(p.take(k as int) =~= p);
    while k > 0 && !found
        invariant
            x@ == file@,
            p == forward_slashes(file@),
            k <= x.len(),
            found ==> k > 0 && last_slash(p) == k - 1,
            !found ==> last_slash(p) == last_slash(p.take(k as int)),
        decreases k + (if found { 0int } else { 1int }),
    {
        assert(p.take(k - 1) =~= p.take(k as int).drop_last());
        if x[k - 1] == '/' || x[k - 1] == '\\' {
            found = true;
        } else {
            k = k - 1;
        }
    }
    if !found {
        assert(p.take(0) =~= Seq::<char>::empty());
        return String::from_str(".");
    }
    let mut r = String::new();
    let mut i: usize = 0;
    while i < k - 1
        invariant
            x@ == file@,
            p == forward_slashes(file@),
            0 < k <= x.len(),
            i <= k - 1,
            r@ == p.take(i as int),
        decreases k - 1 - i,
    {
        let c = if x[i] == '\\' { '/' } else { x[i] };
        push_char(&mut r, c);
        assert(p.take(i + 1) =~= p.take(i as int).push(c));
        i = i + 1;
    }
    r
}

} // verus!
