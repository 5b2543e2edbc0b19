//! The exporter's configuration and the merge of a remotely fetched one.
//!
//! Loading the file and fetching the remote document are outside work; the
//! library holds the plain values and owns the defaulting and merge rules:
//! a remote value wins field by field where it is set, and the system
//! process patterns of both sides are united without duplicates.

use vstd::prelude::*;
use crate::text::views;

verus! {

/// The exporter's configuration values.
pub struct Config {
    pub log_level: Option<String>,
    pub java_home: Option<String>,
    pub configuration_service_url: Option<String>,
    pub system_processes: Option<Vec<String>>,
    pub detect_docker_processes: Option<bool>,
}

/// Whether `t` reads as one of `ts`.
pub open spec fn text_present(ts: Seq<String>, t: Seq<char>) -> bool {
    exists|i: int| 0 <= i < ts.len() && (#[trigger] ts[i])@ == t
}

/// No two of `ts` read the same.
pub open spec fn texts_distinct(ts: Seq<String>) -> bool {
    forall|i: int, j: int| 0 <= i < j < ts.len() ==> (#[trigger] ts[i])@ != (#[trigger] ts[j])@
}

/// How `text_present` behaves under a push.
proof fn lemma_text_present_push(ts: Seq<String>, x: String, t: Seq<char>)
    ensures
        text_present(ts.push(x), t) <==> (text_present(ts, t) || x@ == t),
{
    if text_present(ts.push(x), t) {
        let w = choose|w: int| 0 <= w < ts.push(x).len() && (#[trigger] ts.push(x)[w])@ == t;
        if w < ts.len() {
            assert(ts[w]@ == t);
        }
    }
    if text_present(ts, t) {
        let w = choose|w: int| 0 <= w < ts.len() && (#[trigger] ts[w])@ == t;
        assert(ts.push(x)[w]@ == t);
    }
    if x@ == t {
        assert(ts.push(x)[ts.len() as int]@ == t);
    }
}

/// Executable test for `text_present`.
fn contains_text(ts: &Vec<String>, t: &String) -> (r: bool)
    ensures
        r == text_present(ts@, t@),
{
    let n = ts.len();
    let mut i: usize = 0;
    while i < n
        invariant
            n == ts@.len(),
            0 <= i <= n,
            forall|j: int| 0 <= j < i ==> (#[trigger] ts@[j])@ != t@,
        decreases n - i,
    {
        if ts[i] == *t {
            return true;
        }
        i += 1;
    }
    false
}

/// Append the members of `src` whose text is not yet in `acc`.
fn extend_unique(acc: &mut Vec<String>, src: &Vec<String>)
    requires
        texts_distinct(old(acc)@),
    ensures
        texts_distinct(final(acc)@),
        forall|t: Seq<char>|
            #[trigger] text_present(final(acc)@, t) <==> text_present(old(acc)@, t)
                || text_present(src@, t),
{
    let n = src.len();
    let mut i: usize = 0;
    while i < n
        invariant
            n == src@.len(),
            0 <= i <= n,
            texts_distinct(acc@),
            forall|t: Seq<char>|
                text_present(acc@, t) <==> text_present(old(acc)@, t) || text_present(
                    src@.take(i as int),
                    t,
                ),
        decreases n - i,
    {
        let ghost before = acc@;
        let had = contains_text(acc, &src[i]);
        if !had {
            let fresh = src[i].clone();
            acc.push(fresh);
            proof {
                assert(acc@ == before.push(acc@.last()));
                assert(acc@.last()@ == src@[i as int]@);
                assert forall|a: int, b: int|
                    0 <= a < b < acc@.len() implies (#[trigger] acc@[a])@ != (
                #[trigger] acc@[b])@ by {
                    if b < acc@.len() - 1 {
                        assert(before[a]@ != before[b]@);
                    } else {
                        assert(!text_present(before, src@[i as int]@));
                        assert(acc@[a] == before[a]);
                    }
                }
            }
        }
        proof {
            assert(src@.take(i + 1) =~= src@.take(i as int).push(src@[i as int]));
            assert forall|t: Seq<char>|
                text_present(acc@, t) <==> (text_present(old(acc)@, t) || text_present(
                    src@.take(i + 1),
                    t,
                )) by {
                lemma_text_present_push(src@.take(i as int), src@[i as int], t);
                if !had {
                    lemma_text_present_push(before, acc@.last(), t);
                }
            }
        }
        i += 1;
    }
    proof {
        assert(src@.take(n as int) =~= src@);
    }
}

impl Config {
    /// A configuration with nothing set: what a missing file falls back to.
    pub fn empty() -> (r: Config)
        ensures
            r.log_level is None,
            r.java_home is None,
            r.configuration_service_url is None,
            r.system_processes is None,
            r.detect_docker_processes is None,
    {
        Config {
            log_level: None,
            java_home: None,
            configuration_service_url: None,
            system_processes: None,
            detect_docker_processes: None,
        }
    }

    /// Fill the one defaulted field: container-process detection is off
    /// unless the configuration set it.
    pub fn apply_detect_default(&mut self)
        ensures
            final(self).detect_docker_processes == (if old(
                self,
            ).detect_docker_processes is None {
                Some(false)
            } else {
                old(self).detect_docker_processes
            }),
            final(self).log_level == old(self).log_level,
            final(self).java_home == old(self).java_home,
            final(self).configuration_service_url == old(self).configuration_service_url,
            final(self).system_processes == old(self).system_processes,
    {
        if self.detect_docker_processes.is_none() {
            self.detect_docker_processes = Some(false);
        }
    }

    /// Merge a remotely fetched configuration into this one: the remote log
    /// level and Java home win where set, the system-process patterns of
    /// both sides are united without duplicates, and the remaining fields
    /// stay local.
    pub fn merge_remote(&mut self, remote: Config)
        ensures
            final(self).log_level == (if remote.log_level is Some {
                remote.log_level
            } else {
                old(self).log_level
            }),
            final(self).java_home == (if remote.java_home is Some {
                remote.java_home
            } else {
                old(self).java_home
            }),
            final(self).configuration_service_url == old(self).configuration_service_url,
            final(self).detect_docker_processes == old(self).detect_docker_processes,
            remote.system_processes is None ==> final(self).system_processes == old(
                self,
            ).system_processes,
            remote.system_processes matches Some(rp)
                ==> (final(self).system_processes matches Some(v) && texts_distinct(v@) && (forall|t: Seq<char>|
                text_present(v@, t) <==> (old(self).system_processes matches Some(lp)
                    && text_present(lp@, t)) || text_present(rp@, t))),
    {
        if remote.log_level.is_some() {
            self.log_level = remote.log_level;
        }
        if remote.java_home.is_some() {
            self.java_home = remote.java_home;
        }
        match remote.system_processes {
            None => {},
            Some(rp) => {
                let mut merged: Vec<String> = Vec::new();
                proof {
                    assert(texts_distinct(merged@));
                    assert(forall|t: Seq<char>| !text_present(Seq::<String>::empty(), t));
                }
                let ghost zero = merged@;
                match &self.system_processes {
                    Some(lp) => {
                        extend_unique(&mut merged, lp);
                    },
                    None => {},
                }
                let ghost mid = merged@;
                extend_unique(&mut merged, &rp);
                proof {
                    assert forall|t: Seq<char>|
                        text_present(merged@, t) <==> ((old(
                            self,
                        ).system_processes matches Some(lp) && text_present(lp@, t))
                            || text_present(rp@, t)) by {
                        assert(text_present(merged@, t) <==> (text_present(mid, t)
                            || text_present(rp@, t)));
                        if old(self).system_processes is None {
                            assert(mid == zero);
                            assert(!text_present(zero, t));
                        } else {
                            assert(text_present(mid, t) <==> (text_present(zero, t)
                                || (old(self).system_processes matches Some(lp) && text_present(
                                lp@,
                                t,
                            ))));
                            assert(!text_present(zero, t));
                        }
                    }
                }
                self.system_processes = Some(merged);
            },
        }
    }
}

} // verus!
