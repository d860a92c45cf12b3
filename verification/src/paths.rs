//! Slash-separated container paths: joining a parent path with a child name,
//! taking the final segment of a path, and suffix tests.

use vstd::prelude::*;

verus! {

/// The fully-qualified path of a child named `name` directly under the group
/// whose path is `parent`. The root group's path is the single slash, and
/// names directly under it are not given a second slash.
pub open spec fn join_path(parent: Seq<char>, name: Seq<char>) -> Seq<char> {
    if parent == seq!['/'] {
        parent + name
    } else {
        parent + seq!['/'] + name
    }
}

/// What remains of `s` after its last slash; all of `s` when it has none.
pub open spec fn last_segment(s: Seq<char>) -> Seq<char>
    decreases s.len(),
{
    if s.len() > 0 && s.contains('/') {
        last_segment(s.drop_first())
    } else {
        s
    }
}

/// `s` ends with the suffix `suf`.
pub open spec fn ends_with(s: Seq<char>, suf: Seq<char>) -> bool {
    s.len() >= suf.len() && s.subrange(s.len() - suf.len(), s.len() as int) == suf
}

/// If the last slash of `s` stands at `i`, the last segment is what follows it.
proof fn lemma_last_segment_after_slash(s: Seq<char>, i: int)
    requires
        0 <= i < s.len(),
        s[i] == '/',
        forall|j: int| i < j < s.len() ==> s[j] != '/',
    ensures
        last_segment(s) == s.subrange(i + 1, s.len() as int),
    decreases s.len(),
{
    assert(s.contains('/'));
    if i == 0 {
        lemma_no_slash_fixpoint(s.drop_first());
        assert(s.drop_first() =~= s.subrange(1, s.len() as int));
    } else {
        lemma_last_segment_after_slash(s.drop_first(), i - 1);
        assert(s.drop_first().subrange(i, s.drop_first().len() as int)
            =~= s.subrange(i + 1, s.len() as int));
    }
}

/// A string without a slash is its own last segment.
proof fn lemma_no_slash_fixpoint(s: Seq<char>)
    requires
        forall|j: int| 0 <= j < s.len() ==> s[j] != '/',
    ensures
        last_segment(s) == s,
{
    if s.contains('/') {
        let j = choose|j: int| 0 <= j < s.len() && s[j] == '/';
        assert(false);
    }
}

/// Joins `parent` and `name` with a slash, except that the root path `/`
/// prefixes `name` directly.
pub fn join_path_exec(parent: &str, name: &str) -> (r: String)
    ensures
        r@ == join_path(parent@, name@),
{
    let is_root = parent.unicode_len() == 1 && parent.get_char(0) == '/';
    proof {
        if is_root {
            assert(parent@ =~= seq!['/']);
        } else {
            assert(parent@ != seq!['/']);
        }
    }
    let mut r = parent.to_owned();
    if !is_root {
        r.append("/");
        proof {
            reveal_strlit("/");
            assert("/"@ =~= seq!['/']);
        }
    }
    r.append(name);
    r
}

/// Returns the characters after the last slash of `s`, or all of `s` when it
/// has no slash.
pub fn last_segment_exec(s: &str) -> (r: String)
    ensures
        r@ == last_segment(s@),
{
    let n = s.unicode_len();
    let mut i: usize = n;
    // Scan backwards for the last slash; afterwards `i` is just past it.
    while i > 0 && s.get_char(i - 1) != '/'
        invariant
            i <= n,
            n == s@.len(),
            forall|j: int| i <= j < n ==> s@[j] != '/',
        decreases i,
    {
        i = i - 1;
    }
    proof {
        if i == 0 {
            lemma_no_slash_fixpoint(s@);
            assert(s@.subrange(0, n as int) =~= s@);
        } else {
            lemma_last_segment_after_slash(s@, i - 1);
        }
    }
    let r = s.substring_char(i, n);
    r.to_owned()
}

/// Tests whether `s` ends with `suf`, character for character.
pub fn ends_with_exec(s: &str, suf: &str) -> (r: bool)
    ensures
        r == ends_with(s@, suf@),
{
    let n = s.unicode_len();
    let m = suf.unicode_len();
    if m > n {
        return false;
    }
    let mut k: usize = 0;
    while k < m
        invariant
            0 <= k <= m <= n,
            n == s@.len(),
            m == suf@.len(),
            forall|j: int| 0 <= j < k ==> s@[n - m + j] == suf@[j],
        decreases m - k,
    {
        if s.get_char(n - m + k) != suf.get_char(k) {
            assert(s@.subrange(n - m, n as int)[k as int] != suf@[k as int]);
            return false;
        }
        k = k + 1;
    }
    proof {
        assert(s@.subrange(n - m, n as int) =~= suf@);
    }
    true
}

} // verus!
