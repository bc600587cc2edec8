use vstd::prelude::*;
use vstd::string::StringExecFns;

verus! {

/// Index of the last `/` in `s`, or -1 when there is none.
pub open spec fn last_slash(s: Seq<char>) -> int
    decreases s.len(),
{
    if s.len() == 0 {
        -1
    } else if s.last() == '/' {
        s.len() - 1
    } else {
        last_slash(s.drop_last())
    }
}

/// The directory part of a path: what comes before its last `/`, or the
/// whole path when it has none.
pub open spec fn parent_of(s: Seq<char>) -> Seq<char> {
    if last_slash(s) < 0 {
        s
    } else {
        s.take(last_slash(s))
    }
}

/// The directory to create before writing a file at `path`.
pub fn parent_dir(path: &str) -> (r: String)
    ensures
        r@ == parent_of(path@),
{
    let n = path.unicode_len();
    let mut i: usize = n;
    assert(path@.take(n as int) =~= path@);
    while i > 0
        invariant
            n == path@.len(),
            i <= n,
            last_slash(path@) == last_slash(path@.take(i as int)),
        decreases i,
    {
        let ghost t = path@.take(i as int);
        assert(t.drop_last() =~= path@.take(i - 1));
        assert(t.last() == path@[i - 1]);
        if path.get_char(i - 1) == '/' {
            return String::from_str(path.substring_char(0, i - 1));
        }
        i = i - 1;
    }
    assert(path@.take(0).len() == 0);
    String::from_str(path)
}

} // verus!
