//! Configured name patterns for system-process discovery.
//!
//! Pattern compilation and matching are the work of the `regex` crate; the
//! library trusts its two entry points and reasons about everything around
//! them in terms of the uninterpreted match relation `regex_match`.

use vstd::prelude::*;
use crate::text::views;

verus! {

/// Whether `regex::Regex::new` accepts the pattern.
pub uninterp spec fn regex_valid(pattern: Seq<char>) -> bool;

/// Whether the pattern matches somewhere in the text; a function of the
/// pattern and the text alone.
pub uninterp spec fn regex_match(pattern: Seq<char>, text: Seq<char>) -> bool;

/// A compiled pattern kept together with its source text.
pub struct CompiledPattern {
    source: String,
    automaton: regex::Regex,
}

/// The source text a pattern was compiled from.
pub closed spec fn pattern_source(c: CompiledPattern) -> Seq<char> {
    c.source@
}

#[verifier::external_type_specification]
#[verifier::external_body]
pub struct ExRegex(regex::Regex);

/// Relies on `regex::Regex::new`: it accepts exactly the valid patterns,
/// and the compiled value kept here matches as its source does.
#[verifier::external_body]
fn compile(pattern: &str) -> (r: Option<CompiledPattern>)
    ensures
        r is Some <==> regex_valid(pattern@),
        r matches Some(p) ==> pattern_source(p) == pattern@,
{
    match regex::Regex::new(pattern) {
        Ok(automaton) => Some(CompiledPattern { source: pattern.to_owned(), automaton }),
        Err(_) => None,
    }
}

/// Relies on `regex::Regex::is_match`: whether a compiled pattern matches
/// the text is a function of its source and the text.
#[verifier::external_body]
fn is_match(p: &CompiledPattern, text: &str) -> (r: bool)
    ensures
        r == regex_match(pattern_source(*p), text@),
{
    p.automaton.is_match(text)
}

/// The sources among `ps` that are valid patterns, in order.
pub open spec fn valid_patterns(ps: Seq<Seq<char>>) -> Seq<Seq<char>>
    decreases ps.len(),
{
    if ps.len() == 0 {
        Seq::empty()
    } else if regex_valid(ps.last()) {
        valid_patterns(ps.drop_last()).push(ps.last())
    } else {
        valid_patterns(ps.drop_last())
    }
}

/// The source texts of a sequence of compiled patterns.
pub open spec fn pattern_sources(cs: Seq<CompiledPattern>) -> Seq<Seq<char>> {
    cs.map_values(|c: CompiledPattern| pattern_source(c))
}

/// Compile every pattern, dropping the invalid ones.
pub fn compile_patterns(patterns: &Vec<String>) -> (r: Vec<CompiledPattern>)
    ensures
        pattern_sources(r@) == valid_patterns(views(patterns@)),
{
    let n = patterns.len();
    let mut out: Vec<CompiledPattern> = Vec::new();
    let mut i: usize = 0;
    proof {
        assert(views(patterns@).take(0) =~= Seq::<Seq<char>>::empty());
        assert(pattern_sources(out@) =~~= valid_patterns(views(patterns@).take(0)));
    }
    while i < n
        invariant
            n == patterns@.len(),
            0 <= i <= n,
            pattern_sources(out@) == valid_patterns(views(patterns@).take(i as int)),
        decreases n - i,
    {
        proof {
            assert(views(patterns@)[i as int] == patterns@[i as int]@);
            assert(views(patterns@).take(i + 1).drop_last() =~= views(patterns@).take(i as int));
            assert(views(patterns@).take(i + 1).last() == patterns@[i as int]@);
        }
        match compile(patterns[i].as_str()) {
            Some(p) => {
                proof {
                    assert(pattern_sources(out@.push(p)) =~~= pattern_sources(out@).push(
                        pattern_source(p),
                    ));
                }
                out.push(p);
            },
            None => {},
        }
        i += 1;
    }
    proof {
        assert(views(patterns@).take(n as int) =~= views(patterns@));
    }
    out
}

/// Whether some pattern of `srcs` matches the text.
pub open spec fn any_match(srcs: Seq<Seq<char>>, text: Seq<char>) -> bool {
    exists|i: int| 0 <= i < srcs.len() && regex_match(#[trigger] srcs[i], text)
}

/// Whether some compiled pattern matches the text.
pub fn matches_any(pats: &Vec<CompiledPattern>, text: &str) -> (r: bool)
    ensures
        r == any_match(pattern_sources(pats@), text@),
{
    let n = pats.len();
    let mut i: usize = 0;
    while i < n
        invariant
            n == pats@.len(),
            0 <= i <= n,
            forall|j: int|
                0 <= j < i ==> !regex_match(#[trigger] pattern_sources(pats@)[j], text@),
        decreases n - i,
    {
        if is_match(&pats[i], text) {
            proof {
                assert(pattern_sources(pats@)[i as int] == pattern_source(pats@[i as int]));
            }
            return true;
        }
        proof {
            assert(pattern_sources(pats@)[i as int] == pattern_source(pats@[i as int]));
        }
        i += 1;
    }
    false
}

} // verus!
