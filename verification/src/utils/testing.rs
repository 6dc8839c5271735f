//! Path helpers used when comparing paths across platforms.
use vstd::prelude::*;
use vstd::string::StrSliceExecFns;

verus! {

/// `path` with every backslash turned into a slash.
pub open spec fn unix_path(path: Seq<char>) -> Seq<char> {
    path.map_values(|c: char| if c == '\\' { '/' } else { c })
}

/// Converts a path to Unix style: every backslash becomes a slash.
pub fn to_unix_path(path: String) -> (r: String)
    ensures
        r@ == unix_path(path@),
{
    let s = path.as_str();
    let n: usize = s.unicode_len();
    let mut r = String::new();
    for i in 0..n
        invariant
            n == s@.len(),
            r@ == unix_path(s@.take(i as int)),
    {
        let c = s.get_char(i);
        if c == '\\' {
            r.push('/');
        } else {
            r.push(c);
        }
        assert(r@ =~= unix_path(s@.take(i + 1)));
    }
    assert(s@.take(n as int) =~= s@);
    r
}

} // verus!
