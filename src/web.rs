//! Paths of the web front end.
use vstd::prelude::*;

verus! {

/// `s` without the `/` characters it ends with.
pub open spec fn trim_end_slashes(s: Seq<char>) -> Seq<char>
    decreases s.len(),
{
    if s.len() > 0 && s.last() == '/' {
        trim_end_slashes(s.drop_last())
    } else {
        s
    }
}

/// `s` without the `/` characters it starts with.
pub open spec fn trim_start_slashes(s: Seq<char>) -> Seq<char>
    decreases s.len(),
{
    if s.len() > 0 && s[0] == '/' {
        trim_start_slashes(s.drop_first())
    } else {
        s
    }
}

/// `root` and `path` joined by a single `/`.
pub fn join_path(root: String, path: &str) -> (r: String)
    ensures
        r@ == trim_end_slashes(root@) + seq!['/'] + trim_start_slashes(path@),
{
    let root = root.as_str();
    let mut end = root.unicode_len();
    assert(root@.subrange(0, end as int) =~= root@);
    while end > 0 && root.get_char(end - 1) == '/'
        invariant
            end <= root@.len(),
            trim_end_slashes(root@) == trim_end_slashes(root@.subrange(0, end as int)),
        decreases end,
    {
        assert(root@.subrange(0, end as int).drop_last() =~= root@.subrange(0, end as int - 1));
        end -= 1;
    }
    let n = path.unicode_len();
    let mut start: usize = 0;
    assert(path@.subrange(0, n as int) =~= path@);
    while start < n && path.get_char(start) == '/'
        invariant
            start <= n,
            n == path@.len(),
            trim_start_slashes(path@) == trim_start_slashes(path@.subrange(start as int, n as int)),
        decreases n - start,
    {
        assert(path@.subrange(start as int, n as int).drop_first() =~= path@.subrange(
            start as int + 1,
            n as int,
        ));
        start += 1;
    }
    let head = root.substring_char(0, end);
    let tail = path.substring_char(start, n);
    proof {
        reveal_strlit("/");
    }
    head.to_owned().concat("/").concat(tail)
}

} // verus!
