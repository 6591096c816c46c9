//! Character-level helpers on strings: equality and prefix tests, stated
//! over the `Seq<char>` views.

use vstd::prelude::*;

verus! {

/// The `Seq<char>` views of a sequence of strings.
pub open spec fn str_views(ss: Seq<String>) -> Seq<Seq<char>> {
    ss.map_values(|s: String| s@)
}

/// `pre` is an initial segment of `s`.
pub open spec fn is_prefix_of(pre: Seq<char>, s: Seq<char>) -> bool {
    pre.len() <= s.len() && s.subrange(0, pre.len() as int) == pre
}

/// Character-for-character equality of two string slices.
pub fn str_eq(a: &str, b: &str) -> (r: bool)
    ensures
        r == (a@ == b@),
{
    let alen = a.unicode_len();
    let blen = b.unicode_len();
    if alen != blen {
        return false;
    }
    let mut i: usize = 0;
    while i < alen
        invariant
            0 <= i <= alen,
            alen == a@.len(),
            alen == b@.len(),
            forall|j: int| 0 <= j < i ==> a@[j] == b@[j],
        decreases alen - i,
    {
        if a.get_char(i) != b.get_char(i) {
            return false;
        }
        i += 1;
    }
    proof {
        assert(a@ =~= b@);
    }
    true
}

/// Does `s` start with `pre`, character for character?
pub fn str_starts_with(s: &str, pre: &str) -> (r: bool)
    ensures
        r == is_prefix_of(pre@, s@),
{
    let plen = pre.unicode_len();
    if plen > s.unicode_len() {
        return false;
    }
    let mut i: usize = 0;
    while i < plen
        invariant
            0 <= i <= plen,
            plen == pre@.len(),
            plen <= s@.len(),
            forall|j: int| 0 <= j < i ==> s@[j] == pre@[j],
        decreases plen - i,
    {
        if s.get_char(i) != pre.get_char(i) {
            proof {
                assert(s@.subrange(0, pre@.len() as int)[i as int] == s@[i as int]);
            }
            return false;
        }
        i += 1;
    }
    proof {
        assert(s@.subrange(0, pre@.len() as int) =~= pre@);
    }
    true
}

/// `s` without its trailing slashes.
pub open spec fn spec_trim_slashes(s: Seq<char>) -> Seq<char>
    decreases s.len(),
{
    if s.len() > 0 && s.last() == '/' {
        spec_trim_slashes(s.drop_last())
    } else {
        s
    }
}

/// Trimming keeps everything before the trailing run of slashes.
proof fn lemma_trim_slashes(s: Seq<char>, e: int)
    requires
        0 <= e <= s.len(),
        forall|k: int| e <= k < s.len() ==> s[k] == '/',
        e > 0 ==> s[e - 1] != '/',
    ensures
        spec_trim_slashes(s) == s.take(e),
    decreases s.len(),
{
    if s.len() == 0 {
        assert(s.take(e) =~= s);
    } else if s.last() == '/' {
        assert(e < s.len());
        lemma_trim_slashes(s.drop_last(), e);
        assert(s.drop_last().take(e) =~= s.take(e));
    } else {
        assert(e == s.len());
        assert(s.take(e) =~= s);
    }
}

/// A path relative to the walk root: the path with `"<root>/"` stripped from
/// its front, where the root counts without its trailing slashes; the root
/// itself maps to the empty path; a path not beneath the root is kept whole
/// (the fallback for entries outside the root).
pub open spec fn spec_relative_to(root: Seq<char>, full: Seq<char>) -> Seq<char> {
    let base = spec_trim_slashes(root);
    if full == base {
        Seq::empty()
    } else if is_prefix_of(base.push('/'), full) {
        full.skip(base.len() + 1 as int)
    } else {
        full
    }
}

/// Strip the walk root from the front of a path, tolerating trailing slashes
/// on the root, with the whole path as the fallback when the path does not
/// lie beneath the root.
pub fn relative_to(root: &str, full: &str) -> (r: String)
    ensures
        r@ == spec_relative_to(root@, full@),
{
    let rlen = root.unicode_len();
    let mut e: usize = rlen;
    while e > 0 && root.get_char(e - 1) == '/'
        invariant
            0 <= e <= rlen,
            rlen == root@.len(),
            forall|k: int| e <= k < rlen ==> root@[k] == '/',
        decreases e,
    {
        e -= 1;
    }
    let base = root.substring_char(0, e);
    proof {
        lemma_trim_slashes(root@, e as int);
        assert(base@ =~= spec_trim_slashes(root@));
    }
    if str_eq(full, base) {
        return String::new();
    }
    let prefix = String::from_str(base).concat("/");
    proof {
        reveal_strlit("/");
        assert("/"@ =~= seq!['/']);
        assert(prefix@ =~= base@.push('/'));
    }
    if str_starts_with(full, prefix.as_str()) {
        let flen = full.unicode_len();
        let plen = prefix.unicode_len();
        let rest = full.substring_char(plen, flen);
        proof {
            assert(rest@ =~= full@.skip(base@.len() + 1 as int));
        }
        String::from_str(rest)
    } else {
        String::from_str(full)
    }
}

} // verus!
