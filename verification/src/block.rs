//! The delimited-block format of the bundle artifact.
//!
//! Each accepted file contributes one block to the artifact:
//! a start-marker line carrying the file's relative path, the file's
//! content (each line terminated by a single newline), and an end-marker
//! line followed by a blank line.

use vstd::prelude::*;
use crate::strutil::str_views;

verus! {

/// No newline occurs in `s`.
pub open spec fn no_nl(s: Seq<char>) -> bool {
    forall|i: int| 0 <= i < s.len() ==> s[i] != '\n'
}

/// The text standing before the relative path on a start-marker line.
pub open spec fn marker_head() -> Seq<char> {
    seq!['-', '-', '-', ' ', 'S', 'T', 'A', 'R', 'T', ' ', 'F', 'I', 'L', 'E', ':', ' ']
}

/// The text standing after the relative path on a start-marker line,
/// newline included.
pub open spec fn marker_mid() -> Seq<char> {
    seq![' ', '-', '-', '-', '\n']
}

/// The end-marker line and the blank line that closes a block.
pub open spec fn marker_tail() -> Seq<char> {
    seq![
        '-', '-', '-', ' ', 'E', 'N', 'D', ' ', 'F', 'I', 'L', 'E', ' ', '-', '-', '-', '\n',
        '\n',
    ]
}

/// The block written to the artifact for one file: start-marker line with
/// the relative path, then the content, then the end-marker lines.
pub open spec fn spec_block(rel: Seq<char>, content: Seq<char>) -> Seq<char> {
    marker_head() + rel + marker_mid() + content + marker_tail()
}

/// The block for one file, as written to the artifact.
pub fn render_block(rel: &str, content: &str) -> (r: String)
    ensures
        r@ == spec_block(rel@, content@),
{
    proof {
        reveal_strlit("--- START FILE: ");
        reveal_strlit(" ---\n");
        reveal_strlit("--- END FILE ---\n\n");
        assert("--- START FILE: "@ =~= marker_head());
        assert(" ---\n"@ =~= marker_mid());
        assert("--- END FILE ---\n\n"@ =~= marker_tail());
    }
    let mut s = String::new();
    s.append("--- START FILE: ");
    s.append(rel);
    s.append(" ---\n");
    s.append(content);
    s.append("--- END FILE ---\n\n");
    proof {
        assert(s@ =~= spec_block(rel@, content@));
    }
    s
}

/// A file's content as written to the artifact: each line followed by one
/// newline, in order.
pub open spec fn spec_unlines(lines: Seq<Seq<char>>) -> Seq<char>
    decreases lines.len(),
{
    if lines.len() == 0 {
        Seq::empty()
    } else {
        spec_unlines(lines.drop_last()) + lines.last().push('\n')
    }
}

/// Join a file's lines, terminating each with one newline. This is the
/// newline normalization of the bundler: whatever terminator a line had
/// when read, it is written back with `'\n'` alone.
pub fn join_lines(lines: &Vec<String>) -> (r: String)
    ensures
        r@ == spec_unlines(str_views(lines@)),
{
    let mut s = String::new();
    proof {
        assert(s@ =~= spec_unlines(str_views(lines@).take(0)));
    }
    let mut i: usize = 0;
    while i < lines.len()
        invariant
            i <= lines@.len(),
            s@ == spec_unlines(str_views(lines@).take(i as int)),
        decreases lines@.len() - i,
    {
        s.append(lines[i].as_str());
        s.append("\n");
        proof {
            reveal_strlit("\n");
            assert("\n"@ =~= seq!['\n']);
            let vs = str_views(lines@);
            assert(vs[i as int] == lines@[i as int]@);
            assert(vs.take(i + 1).drop_last() =~= vs.take(i as int));
            assert(s@ =~= spec_unlines(vs.take(i as int)) + vs[i as int].push('\n'));
            assert(s@ =~= spec_unlines(vs.take(i + 1)));
        }
        i += 1;
    }
    proof {
        assert(str_views(lines@).take(lines@.len() as int) =~= str_views(lines@));
    }
    s
}

/// The index of the first newline in `s`, or `s.len()` when there is none.
pub open spec fn first_nl(s: Seq<char>) -> int
    decreases s.len(),
{
    if s.len() == 0 {
        0
    } else if s[0] == '\n' {
        0
    } else {
        1 + first_nl(s.skip(1))
    }
}

/// `first_nl` finds a newline, and nothing before it is one.
pub proof fn lemma_first_nl(s: Seq<char>)
    ensures
        0 <= first_nl(s) <= s.len(),
        first_nl(s) < s.len() ==> s[first_nl(s)] == '\n',
        forall|j: int| 0 <= j < first_nl(s) ==> s[j] != '\n',
    decreases s.len(),
{
    if s.len() > 0 && s[0] != '\n' {
        lemma_first_nl(s.skip(1));
        if first_nl(s) < s.len() {
            assert(s.skip(1)[first_nl(s) - 1] == s[first_nl(s)]);
        }
        assert forall|j: int| 0 <= j < first_nl(s) implies s[j] != '\n' by {
            if j > 0 {
                assert(s.skip(1)[j - 1] == s[j]);
            }
        }
    }
}

/// Any index with a newline and none before it is `first_nl`.
pub proof fn lemma_first_nl_unique(s: Seq<char>, i: int)
    requires
        0 <= i <= s.len(),
        i < s.len() ==> s[i] == '\n',
        i == s.len() ==> no_nl(s),
        forall|j: int| 0 <= j < i ==> s[j] != '\n',
    ensures
        first_nl(s) == i,
{
    lemma_first_nl(s);
}

/// Prepending newline-free text shifts `first_nl` by its length.
pub proof fn lemma_first_nl_append(x: Seq<char>, y: Seq<char>)
    requires
        no_nl(x),
    ensures
        first_nl(x + y) == x.len() + first_nl(y),
    decreases x.len(),
{
    if x.len() == 0 {
        assert(x + y =~= y);
    } else {
        assert((x + y)[0] == x[0]);
        assert((x + y).skip(1) =~= x.skip(1) + y);
        assert(no_nl(x.skip(1))) by {
            assert forall|j: int| 0 <= j < x.skip(1).len() implies x.skip(1)[j] != '\n' by {
                assert(x.skip(1)[j] == x[j + 1]);
            }
        }
        lemma_first_nl_append(x.skip(1), y);
    }
}

/// Extraction of one block: when the text has the shape
/// `marker_head() + rel + marker_mid() + content + marker_tail()`
/// with the first newline closing the start-marker line, the relative path
/// and the content; otherwise nothing.
pub open spec fn spec_extract(b: Seq<char>) -> Option<(Seq<char>, Seq<char>)> {
    let hd = marker_head();
    let mid = marker_mid();
    let tl = marker_tail();
    let i = first_nl(b);
    if hd.len() + mid.len() - 1 <= i && i < b.len() && i + 1 + tl.len() <= b.len() && b.take(
        hd.len() as int,
    ) == hd && b.subrange(i - (mid.len() - 1), i + 1) == mid && b.skip(b.len() - tl.len()) == tl {
        Some(
            (
                b.subrange(hd.len() as int, i - (mid.len() - 1)),
                b.subrange(i + 1, b.len() - tl.len()),
            ),
        )
    } else {
        Option::None
    }
}

/// No marker line contains an interior newline.
proof fn lemma_markers_no_nl()
    ensures
        no_nl(marker_head()),
        no_nl(marker_mid().take(4)),
        marker_mid()[4] == '\n',
{
}

/// Round trip at the block level: extracting from a rendered block gives
/// back exactly the relative path and the content, for any content and any
/// relative path free of newlines.
pub proof fn lemma_extract_block(rel: Seq<char>, content: Seq<char>)
    requires
        no_nl(rel),
    ensures
        spec_extract(spec_block(rel, content)) == Some((rel, content)),
{
    let hd = marker_head();
    let mid = marker_mid();
    let tl = marker_tail();
    let b = spec_block(rel, content);
    let x = hd + rel + mid.take(4);
    let y = seq!['\n'] + (content + tl);
    assert(b =~= x + y);
    lemma_markers_no_nl();
    assert(no_nl(x)) by {
        assert forall|j: int| 0 <= j < x.len() implies x[j] != '\n' by {
            if j < hd.len() {
                assert(x[j] == hd[j]);
            } else if j < hd.len() + rel.len() {
                assert(x[j] == rel[j - hd.len()]);
            } else {
                assert(x[j] == mid.take(4)[j - hd.len() - rel.len()]);
            }
        }
    }
    assert(first_nl(y) == 0);
    lemma_first_nl_append(x, y);
    let i = first_nl(b);
    assert(i == hd.len() + rel.len() + 4);
    assert(b.take(hd.len() as int) =~= hd);
    assert(b.subrange(i - (mid.len() - 1), i + 1) =~= mid);
    assert(b.skip(b.len() - tl.len()) =~= tl);
    assert(b.subrange(hd.len() as int, i - (mid.len() - 1)) =~= rel);
    assert(b.subrange(i + 1, b.len() - tl.len()) =~= content);
}

/// Extract the relative path and the content from one rendered block;
/// nothing when the text is not shaped like a block.
pub fn extract_block(block: &str) -> (r: Option<(String, String)>)
    ensures
        (match r {
            Some(p) => spec_extract(block@) == Some((p.0@, p.1@)),
            Option::None => spec_extract(block@) is None,
        }),
{
    proof {
        reveal_strlit("--- START FILE: ");
        reveal_strlit(" ---\n");
        reveal_strlit("--- END FILE ---\n\n");
        assert("--- START FILE: "@ =~= marker_head());
        assert(" ---\n"@ =~= marker_mid());
        assert("--- END FILE ---\n\n"@ =~= marker_tail());
        lemma_first_nl(block@);
    }
    let n = block.unicode_len();
    let hd_len = "--- START FILE: ".unicode_len();
    let mid_len = " ---\n".unicode_len();
    let tl_len = "--- END FILE ---\n\n".unicode_len();
    let mut i: usize = 0;
    while i < n && block.get_char(i) != '\n'
        invariant
            0 <= i <= n,
            n == block@.len(),
            forall|j: int| 0 <= j < i ==> block@[j] != '\n',
        decreases n - i,
    {
        i += 1;
    }
    proof {
        lemma_first_nl_unique(block@, i as int);
    }
    if i >= n {
        return Option::None;
    }
    if i < hd_len + mid_len - 1 || n - (i + 1) < tl_len {
        return Option::None;
    }
    if !crate::strutil::str_eq(block.substring_char(0, hd_len), "--- START FILE: ") {
        return Option::None;
    }
    if !crate::strutil::str_eq(block.substring_char(i - (mid_len - 1), i + 1), " ---\n") {
        return Option::None;
    }
    if !crate::strutil::str_eq(block.substring_char(n - tl_len, n), "--- END FILE ---\n\n") {
        return Option::None;
    }
    let rel = block.substring_char(hd_len, i - (mid_len - 1));
    let content = block.substring_char(i + 1, n - tl_len);
    proof {
        assert(block@.take(marker_head().len() as int) == marker_head());
        assert(rel@ == block@.subrange(
            marker_head().len() as int,
            first_nl(block@) - (marker_mid().len() - 1),
        ));
        assert(content@ == block@.subrange(
            first_nl(block@) + 1,
            block@.len() - marker_tail().len(),
        ));
    }
    Some((String::from_str(rel), String::from_str(content)))
}

/// The line sequence of a content text: segments split at each newline,
/// with a final unterminated segment kept whole.
pub open spec fn spec_split_lines(c: Seq<char>) -> Seq<Seq<char>>
    decreases c.len(),
    via spec_split_lines_decreases
{
    if c.len() == 0 {
        Seq::empty()
    } else {
        let i = first_nl(c);
        if i == c.len() {
            seq![c]
        } else {
            seq![c.take(i)] + spec_split_lines(c.skip(i + 1))
        }
    }
}

#[via_fn]
proof fn spec_split_lines_decreases(c: Seq<char>) {
    lemma_first_nl(c);
}

/// Split a content text back into its line sequence.
pub fn split_lines(content: &str) -> (r: Vec<String>)
    ensures
        str_views(r@) == spec_split_lines(content@),
{
    let n = content.unicode_len();
    let mut out: Vec<String> = Vec::new();
    let mut pos: usize = 0;
    proof {
        assert(content@.skip(0) =~= content@);
        assert(str_views(out@) =~= Seq::<Seq<char>>::empty());
        assert(str_views(out@) + spec_split_lines(content@) =~= spec_split_lines(content@));
    }
    while pos < n
        invariant
            0 <= pos <= n,
            n == content@.len(),
            str_views(out@) + spec_split_lines(content@.skip(pos as int)) == spec_split_lines(
                content@,
            ),
        decreases n - pos,
    {
        let ghost c = content@.skip(pos as int);
        let ghost prev = str_views(out@);
        let mut j: usize = pos;
        while j < n && content.get_char(j) != '\n'
            invariant
                pos <= j <= n,
                n == content@.len(),
                forall|k: int| pos <= k < j ==> content@[k] != '\n',
            decreases n - j,
        {
            j += 1;
        }
        proof {
            assert forall|k: int| 0 <= k < j - pos implies c[k] != '\n' by {
                assert(c[k] == content@[k + pos]);
            }
            if j == n {
                assert forall|k: int| 0 <= k < c.len() implies c[k] != '\n' by {
                    assert(c[k] == content@[k + pos]);
                }
            } else {
                assert(c[j - pos] == content@[j as int]);
            }
            lemma_first_nl_unique(c, j - pos);
        }
        if j < n {
            let line = content.substring_char(pos, j);
            out.push(String::from_str(line));
            proof {
                assert(line@ =~= c.take(j - pos));
                assert(c.skip(j - pos + 1) =~= content@.skip(j + 1));
                assert(spec_split_lines(c) == seq![line@] + spec_split_lines(content@.skip(j + 1)));
                assert(str_views(out@) =~= prev.push(line@));
                assert(str_views(out@) + spec_split_lines(content@.skip(j + 1)) =~= prev
                    + spec_split_lines(c));
            }
            pos = j + 1;
        } else {
            let line = content.substring_char(pos, n);
            out.push(String::from_str(line));
            proof {
                assert(line@ =~= c);
                assert(first_nl(c) == c.len());
                assert(spec_split_lines(c) =~= seq![c]);
                assert(content@.skip(n as int) =~= Seq::<char>::empty());
                assert(str_views(out@) =~= prev.push(c));
                assert(str_views(out@) + spec_split_lines(content@.skip(n as int)) =~= prev
                    + spec_split_lines(c));
            }
            pos = n;
        }
    }
    proof {
        assert(content@.skip(n as int) =~= Seq::<char>::empty());
        assert(str_views(out@) =~= spec_split_lines(content@));
    }
    out
}

/// `spec_unlines` unrolled from the front.
proof fn lemma_unlines_first(lines: Seq<Seq<char>>)
    requires
        lines.len() > 0,
    ensures
        spec_unlines(lines) == lines.first().push('\n') + spec_unlines(lines.skip(1)),
    decreases lines.len(),
{
    if lines.len() == 1 {
        assert(lines.drop_last() =~= Seq::<Seq<char>>::empty());
        assert(lines.skip(1) =~= Seq::<Seq<char>>::empty());
        assert(spec_unlines(lines) =~= lines.first().push('\n') + spec_unlines(lines.skip(1)));
    } else {
        let dl = lines.drop_last();
        lemma_unlines_first(dl);
        assert(lines.skip(1).drop_last() =~= dl.skip(1));
        assert(lines.skip(1).last() == lines.last());
        assert(spec_unlines(lines) =~= lines.first().push('\n') + spec_unlines(lines.skip(1)));
    }
}

/// Splitting the joined lines gives back exactly the original line
/// sequence, for lines free of newlines.
pub proof fn lemma_split_unlines(lines: Seq<Seq<char>>)
    requires
        forall|k: int| 0 <= k < lines.len() ==> no_nl(#[trigger] lines[k]),
    ensures
        spec_split_lines(spec_unlines(lines)) == lines,
    decreases lines.len(),
{
    if lines.len() > 0 {
        let u = spec_unlines(lines);
        let rest = lines.skip(1);
        lemma_unlines_first(lines);
        let y = seq!['\n'] + spec_unlines(rest);
        assert(u =~= lines.first() + y);
        lemma_first_nl_append(lines.first(), y);
        let i = first_nl(u);
        assert(i == lines.first().len());
        assert(i < u.len());
        assert(u.take(i) =~= lines.first());
        assert(u.skip(i + 1) =~= spec_unlines(rest));
        assert(forall|k: int| 0 <= k < rest.len() ==> no_nl(#[trigger] rest[k])) by {
            assert forall|k: int| 0 <= k < rest.len() implies no_nl(rest[k]) by {
                assert(rest[k] == lines[k + 1]);
            }
        }
        lemma_split_unlines(rest);
        assert(spec_split_lines(u) =~= lines);
    }
}

/// Round trip for one file: the block rendered from its relative path and
/// its joined lines extracts back to that path and content, and splitting
/// the content restores the line sequence — for a path and lines free of
/// newlines.
pub proof fn lemma_block_round_trip(rel: Seq<char>, lines: Seq<Seq<char>>)
    requires
        no_nl(rel),
        forall|k: int| 0 <= k < lines.len() ==> no_nl(#[trigger] lines[k]),
    ensures
        spec_extract(spec_block(rel, spec_unlines(lines))) == Some((rel, spec_unlines(lines))),
        spec_split_lines(spec_unlines(lines)) == lines,
{
    lemma_extract_block(rel, spec_unlines(lines));
    lemma_split_unlines(lines);
}

/// The views of a sequence of (relative path, content) pairs.
pub open spec fn pair_views(ps: Seq<(String, String)>) -> Seq<(Seq<char>, Seq<char>)> {
    ps.map_values(|p: (String, String)| (p.0@, p.1@))
}

/// The whole artifact: the concatenation of the blocks of the given
/// (relative path, content) pairs, in order. The artifact is a function
/// of this sequence alone, so two runs over one filesystem state write
/// byte-identical artifacts.
pub open spec fn spec_bundle(files: Seq<(Seq<char>, Seq<char>)>) -> Seq<char>
    decreases files.len(),
{
    if files.len() == 0 {
        Seq::empty()
    } else {
        spec_bundle(files.drop_last()) + spec_block(files.last().0, files.last().1)
    }
}

/// Render the whole artifact for the given (relative path, content) pairs.
pub fn bundle_blocks(files: &Vec<(String, String)>) -> (r: String)
    ensures
        r@ == spec_bundle(pair_views(files@)),
{
    let mut out = String::new();
    proof {
        assert(out@ =~= spec_bundle(pair_views(files@).take(0)));
    }
    let mut i: usize = 0;
    while i < files.len()
        invariant
            i <= files@.len(),
            out@ == spec_bundle(pair_views(files@).take(i as int)),
        decreases files@.len() - i,
    {
        let p = &files[i];
        let b = render_block(p.0.as_str(), p.1.as_str());
        out.append(b.as_str());
        proof {
            let vs = pair_views(files@);
            assert(vs[i as int] == (files@[i as int].0@, files@[i as int].1@));
            assert(vs.take(i + 1).drop_last() =~= vs.take(i as int));
            assert(out@ =~= spec_bundle(vs.take(i + 1)));
        }
        i += 1;
    }
    proof {
        assert(pair_views(files@).take(files@.len() as int) =~= pair_views(files@));
    }
    out
}

} // verus!
