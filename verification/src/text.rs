//! Verified text utilities shared by the parsers: the blank-character class
//! used when tokenizing tool output, splitting into lines and into
//! whitespace-separated tokens.

use vstd::prelude::*;

verus! {

/// Characters the tokenizers treat as blank: the ASCII whitespace set.
/// Diagnostic-tool output is ASCII, so this is the whole class that matters.
pub open spec fn is_space(c: char) -> bool {
    c == ' ' || c == '\t' || c == '\r' || c == '\n' || c == '\u{0b}' || c == '\u{0c}'
}

/// Executable test for `is_space`.
pub fn space_char(c: char) -> (r: bool)
    ensures
        r == is_space(c),
{
    c == ' ' || c == '\t' || c == '\r' || c == '\n' || c == '\u{0b}' || c == '\u{0c}'
}

/// The views of a sequence of strings.
pub open spec fn views(ts: Seq<String>) -> Seq<Seq<char>> {
    ts.map_values(|t: String| t@)
}

pub proof fn lemma_views_push(ts: Seq<String>, t: String)
    ensures
        views(ts.push(t)) == views(ts).push(t@),
{
    assert(views(ts.push(t)) =~= views(ts).push(t@));
}

/// Split `s` at every character satisfying `sep`.  The result always has one
/// segment more than there are separator characters; consecutive separators
/// yield empty segments.
pub open spec fn split_when(s: Seq<char>, sep: spec_fn(char) -> bool) -> Seq<Seq<char>>
    decreases s.len(),
{
    if s.len() == 0 {
        seq![Seq::<char>::empty()]
    } else if sep(s[0]) {
        seq![Seq::<char>::empty()] + split_when(s.drop_first(), sep)
    } else {
        let rest = split_when(s.drop_first(), sep);
        seq![seq![s[0]] + rest[0]] + rest.drop_first()
    }
}

proof fn lemma_split_when_len(s: Seq<char>, sep: spec_fn(char) -> bool)
    ensures
        split_when(s, sep).len() >= 1,
    decreases s.len(),
{
    if s.len() == 0 {
    } else {
        lemma_split_when_len(s.drop_first(), sep);
    }
}

/// How `split_when` behaves on a string whose first `k` characters are not
/// separators: either the whole string is one segment, or it splits at the
/// first separator.
proof fn lemma_split_when_prefix(s: Seq<char>, sep: spec_fn(char) -> bool, k: int)
    requires
        0 <= k <= s.len(),
        forall|j: int| 0 <= j < k ==> !sep(s[j]),
    ensures
        k == s.len() ==> split_when(s, sep) == seq![s],
        k < s.len() && sep(s[k]) ==> split_when(s, sep) == seq![s.take(k)] + split_when(
            s.skip(k + 1),
            sep,
        ),
    decreases k,
{
    lemma_split_when_len(s, sep);
    if k == 0 {
        if s.len() == 0 {
            assert(split_when(s, sep) =~~= seq![s]);
        } else if sep(s[0]) {
            assert(s.skip(1) =~= s.drop_first());
            assert(split_when(s, sep) =~~= seq![s.take(0)] + split_when(s.skip(1), sep));
        }
    } else {
        let d = s.drop_first();
        lemma_split_when_len(d, sep);
        lemma_split_when_prefix(d, sep, k - 1);
        let rest = split_when(d, sep);
        if k == s.len() {
            assert(rest == seq![d]);
            assert(seq![s[0]] + rest[0] =~= s);
            assert(split_when(s, sep) =~~= seq![s]);
        } else if sep(s[k]) {
            assert(d[k - 1] == s[k]);
            assert(rest == seq![d.take(k - 1)] + split_when(d.skip(k), sep));
            assert(rest[0] == d.take(k - 1));
            assert(seq![s[0]] + d.take(k - 1) =~= s.take(k));
            assert(rest.drop_first() =~~= split_when(d.skip(k), sep));
            assert(d.skip(k) =~= s.skip(k + 1));
            assert(split_when(s, sep) =~~= seq![s.take(k)] + split_when(s.skip(k + 1), sep));
        }
    }
}

/// Separator predicate for line splitting.
pub open spec fn is_newline(c: char) -> bool {
    c == '\n'
}

/// The lines of `s`: segments between newline characters, with the final
/// empty segment of a newline-terminated string dropped, so that a trailing
/// newline does not count an extra empty line.
pub open spec fn lines_of(s: Seq<char>) -> Seq<Seq<char>> {
    let parts = split_when(s, |c: char| is_newline(c));
    if parts.last().len() == 0 {
        parts.drop_last()
    } else {
        parts
    }
}

/// Split `s` into its lines.
pub fn split_lines(s: &str) -> (r: Vec<String>)
    ensures
        views(r@) == lines_of(s@),
{
    let ghost sep = |c: char| is_newline(c);
    let n = s.unicode_len();
    let mut segs: Vec<String> = Vec::new();
    let mut start: usize = 0;
    let mut i: usize = 0;
    proof {
        assert(views(segs@) =~~= Seq::<Seq<char>>::empty());
        assert(s@.skip(0) =~= s@);
        assert(views(segs@) + split_when(s@, sep) =~~= split_when(s@, sep));
    }
    while i < n
        invariant
            sep == (|c: char| is_newline(c)),
            0 <= start <= i <= n,
            n == s@.len(),
            views(segs@) + split_when(s@.skip(start as int), sep) == split_when(s@, sep),
            forall|j: int| start <= j < i ==> !sep(s@[j]),
        decreases n - i,
    {
        let c = s.get_char(i);
        if c == '\n' {
            proof {
                lemma_split_when_prefix(s@.skip(start as int), sep, i - start);
                assert(s@.skip(start as int)[i - start] == s@[i as int]);
                assert(s@.skip(start as int).take(i - start) =~= s@.subrange(
                    start as int,
                    i as int,
                ));
                assert(s@.skip(start as int).skip(i - start + 1) =~= s@.skip(i + 1));
            }
            let seg = String::from_str(s.substring_char(start, i));
            proof {
                lemma_views_push(segs@, seg);
                assert(views(segs@.push(seg)) + split_when(s@.skip(i + 1), sep) =~~= views(segs@)
                    + split_when(s@.skip(start as int), sep));
            }
            segs.push(seg);
            start = i + 1;
        } else {
            proof {
                assert(!sep(s@[i as int]));
            }
        }
        i += 1;
    }
    proof {
        lemma_split_when_prefix(s@.skip(start as int), sep, n - start);
        assert(s@.skip(start as int) =~= s@.subrange(start as int, n as int));
    }
    let last_seg = String::from_str(s.substring_char(start, n));
    proof {
        lemma_views_push(segs@, last_seg);
        assert(views(segs@.push(last_seg)) =~~= split_when(s@, sep));
    }
    segs.push(last_seg);
    let m = segs.len();
    if segs[m - 1].as_str().unicode_len() == 0 {
        proof {
            let parts = split_when(s@, sep);
            lemma_split_when_len(s@, sep);
            assert(parts.last().len() == 0);
            assert(views(segs@).drop_last() =~~= views(segs@.drop_last()));
        }
        let _ = segs.pop();
    }
    segs
}

/// Keep only the non-empty segments, in order.
pub open spec fn drop_empty(parts: Seq<Seq<char>>) -> Seq<Seq<char>>
    decreases parts.len(),
{
    if parts.len() == 0 {
        Seq::empty()
    } else if parts.last().len() == 0 {
        drop_empty(parts.drop_last())
    } else {
        drop_empty(parts.drop_last()).push(parts.last())
    }
}

/// The whitespace-separated tokens of `s`: maximal runs of non-blank
/// characters, in order.
pub open spec fn tokens_of(s: Seq<char>) -> Seq<Seq<char>> {
    drop_empty(split_when(s, |c: char| is_space(c)))
}

proof fn lemma_drop_empty_push(parts: Seq<Seq<char>>, seg: Seq<char>)
    ensures
        seg.len() == 0 ==> drop_empty(parts.push(seg)) == drop_empty(parts),
        seg.len() > 0 ==> drop_empty(parts.push(seg)) == drop_empty(parts).push(seg),
{
    assert(parts.push(seg).drop_last() =~~= parts);
    assert(parts.push(seg).last() == seg);
}

/// Split `s` into its whitespace-separated tokens.
pub fn whitespace_tokens(s: &str) -> (r: Vec<String>)
    ensures
        views(r@) == tokens_of(s@),
{
    let ghost sep = |c: char| is_space(c);
    let n = s.unicode_len();
    let mut toks: Vec<String> = Vec::new();
    let ghost mut parts: Seq<Seq<char>> = Seq::empty();
    let mut start: usize = 0;
    let mut i: usize = 0;
    proof {
        assert(views(toks@) =~~= drop_empty(parts));
        assert(s@.skip(0) =~= s@);
        assert(parts + split_when(s@, sep) =~~= split_when(s@, sep));
    }
    while i < n
        invariant
            sep == (|c: char| is_space(c)),
            0 <= start <= i <= n,
            n == s@.len(),
            views(toks@) == drop_empty(parts),
            parts + split_when(s@.skip(start as int), sep) == split_when(s@, sep),
            forall|j: int| start <= j < i ==> !sep(s@[j]),
        decreases n - i,
    {
        let c = s.get_char(i);
        if space_char(c) {
            proof {
                lemma_split_when_prefix(s@.skip(start as int), sep, i - start);
                assert(s@.skip(start as int)[i - start] == s@[i as int]);
                assert(s@.skip(start as int).take(i - start) =~= s@.subrange(
                    start as int,
                    i as int,
                ));
                assert(s@.skip(start as int).skip(i - start + 1) =~= s@.skip(i + 1));
            }
            let ghost seg = s@.subrange(start as int, i as int);
            if i > start {
                let tok = String::from_str(s.substring_char(start, i));
                proof {
                    lemma_views_push(toks@, tok);
                    lemma_drop_empty_push(parts, seg);
                }
                toks.push(tok);
            } else {
                proof {
                    lemma_drop_empty_push(parts, seg);
                }
            }
            proof {
                parts = parts.push(seg);
                assert(parts + split_when(s@.skip(i + 1), sep) =~~= split_when(s@, sep));
            }
            start = i + 1;
        } else {
            proof {
                assert(!sep(s@[i as int]));
            }
        }
        i += 1;
    }
    proof {
        lemma_split_when_prefix(s@.skip(start as int), sep, n - start);
        assert(s@.skip(start as int) =~= s@.subrange(start as int, n as int));
    }
    let ghost seg = s@.subrange(start as int, n as int);
    if n > start {
        let tok = String::from_str(s.substring_char(start, n));
        proof {
            lemma_views_push(toks@, tok);
            lemma_drop_empty_push(parts, seg);
        }
        toks.push(tok);
    } else {
        proof {
            lemma_drop_empty_push(parts, seg);
        }
    }
    proof {
        parts = parts.push(seg);
        assert(parts =~~= split_when(s@, sep));
    }
    toks
}

/// Whether two texts read the same.
pub fn str_eq(a: &str, b: &str) -> (r: bool)
    ensures
        r == (a@ == b@),
{
    let n = a.unicode_len();
    if n != b.unicode_len() {
        return false;
    }
    let mut i: usize = 0;
    while i < n
        invariant
            n == a@.len() == b@.len(),
            0 <= i <= n,
            forall|j: int| 0 <= j < i ==> a@[j] == b@[j],
        decreases n - i,
    {
        if a.get_char(i) != b.get_char(i) {
            return false;
        }
        i += 1;
    }
    proof {
        assert(a@ =~= b@);
    }
    true
}

} // verus!
