//! Discovery of JVM processes from tool output and the host process table.
//!
//! The process lister prints one line per JVM: a pid, then the qualified
//! launch class or path.  The lister's own helper process is excluded.
//! Container findings that duplicate a host process name are dropped — the
//! host wins.  System processes are host OS processes whose name matches a
//! configured pattern and whose parent is the init process.

use vstd::prelude::*;
use crate::identity::ProcessInfo;
use crate::pattern::{any_match, pattern_sources, CompiledPattern};
use crate::text::{lines_of, tokens_of, views};

verus! {

/// The last `.`-separated segment of a qualified name: the text after the
/// final dot, or the whole text when there is none.
pub open spec fn last_segment(s: Seq<char>) -> Seq<char>
    decreases s.len(),
{
    if s.len() == 0 {
        Seq::empty()
    } else if s.last() == '.' {
        Seq::empty()
    } else {
        last_segment(s.drop_last()).push(s.last())
    }
}

proof fn lemma_last_segment_no_dot(s: Seq<char>)
    requires
        forall|j: int| 0 <= j < s.len() ==> #[trigger] s[j] != '.',
    ensures
        last_segment(s) == s,
    decreases s.len(),
{
    if s.len() > 0 {
        lemma_last_segment_no_dot(s.drop_last());
        assert(last_segment(s.drop_last()).push(s.last()) =~= s);
    }
}

proof fn lemma_last_segment_after_dot(s: Seq<char>, p: int)
    requires
        0 <= p < s.len(),
        s[p] == '.',
        forall|j: int| p < j < s.len() ==> #[trigger] s[j] != '.',
    ensures
        last_segment(s) == s.skip(p + 1),
    decreases s.len(),
{
    if p == s.len() - 1 {
        assert(s.skip(p + 1) =~= Seq::<char>::empty());
    } else {
        lemma_last_segment_after_dot(s.drop_last(), p);
        assert(s.drop_last().skip(p + 1).push(s.last()) =~= s.skip(p + 1));
    }
}

/// The last `.`-separated segment, executable form.
pub fn class_name_of(s: &str) -> (r: String)
    ensures
        r@ == last_segment(s@),
{
    let n = s.unicode_len();
    let mut i: usize = n;
    while i > 0
        invariant
            0 <= i <= n,
            n == s@.len(),
            forall|j: int| i <= j < n ==> #[trigger] s@[j] != '.',
        decreases i,
    {
        if s.get_char(i - 1) == '.' {
            proof {
                lemma_last_segment_after_dot(s@, i - 1);
                assert(s@.skip(i as int) =~= s@.subrange(i as int, n as int));
            }
            return String::from_str(s.substring_char(i, n));
        }
        i -= 1;
    }
    proof {
        lemma_last_segment_no_dot(s@);
        assert(s@.subrange(0, n as int) =~= s@);
    }
    String::from_str(s.substring_char(0, n))
}

/// Whether a class name reads as the excluded helper process of the lister
/// (`jps`, compared case-insensitively).
pub open spec fn is_excluded_name(s: Seq<char>) -> bool {
    &&& s.len() == 3
    &&& (s[0] == 'j' || s[0] == 'J')
    &&& (s[1] == 'p' || s[1] == 'P')
    &&& (s[2] == 's' || s[2] == 'S')
}

/// Executable test for the exclusion list.
pub fn excluded_name(s: &str) -> (r: bool)
    ensures
        r == is_excluded_name(s@),
{
    if s.unicode_len() != 3 {
        return false;
    }
    let c0 = s.get_char(0);
    let c1 = s.get_char(1);
    let c2 = s.get_char(2);
    (c0 == 'j' || c0 == 'J') && (c1 == 'p' || c1 == 'P') && (c2 == 's' || c2 == 'S')
}

/// One line of lister output that yields a process: at least two tokens,
/// and a class name outside the exclusion list.
pub open spec fn jps_line_ok(line: Seq<char>) -> bool {
    &&& tokens_of(line).len() >= 2
    &&& !is_excluded_name(last_segment(tokens_of(line)[1]))
}

/// The process name a line yields: the qualified name or its last segment.
pub open spec fn jps_line_name(line: Seq<char>, full_path: bool) -> Seq<char> {
    if full_path {
        tokens_of(line)[1]
    } else {
        last_segment(tokens_of(line)[1])
    }
}

/// One discovered lister entry: a pid text and a process name.
pub struct JpsEntry {
    pub pid: String,
    pub name: String,
}

/// The views of a sequence of lister entries.
pub open spec fn entry_views(es: Seq<JpsEntry>) -> Seq<(Seq<char>, Seq<char>)> {
    es.map_values(|e: JpsEntry| (e.pid@, e.name@))
}

/// The entries of the first `n` lines of lister output.
pub open spec fn jps_entries(lines: Seq<Seq<char>>, full_path: bool, n: int) -> Seq<
    (Seq<char>, Seq<char>),
>
    decreases n,
{
    if n <= 0 {
        Seq::empty()
    } else {
        let prev = jps_entries(lines, full_path, n - 1);
        if jps_line_ok(lines[n - 1]) {
            prev.push((tokens_of(lines[n - 1])[0], jps_line_name(lines[n - 1], full_path)))
        } else {
            prev
        }
    }
}

/// Parse process-lister output: one entry per line of the form
/// `<pid> <qualified-name>`, excluding the lister's own helper process, the
/// name shortened to its class name unless `full_path` is set.
pub fn parse_jps_output(stdout: &str, full_path: bool) -> (r: Vec<JpsEntry>)
    ensures
        entry_views(r@) == jps_entries(lines_of(stdout@), full_path, lines_of(stdout@).len() as int),
{
    let lines = crate::text::split_lines(stdout);
    let ghost ls = lines_of(stdout@);
    let n = lines.len();
    let mut out: Vec<JpsEntry> = Vec::new();
    let mut i: usize = 0;
    proof {
        assert(entry_views(out@) =~~= jps_entries(ls, full_path, 0));
    }
    while i < n
        invariant
            n == lines@.len(),
            views(lines@) == ls,
            0 <= i <= n,
            entry_views(out@) == jps_entries(ls, full_path, i as int),
        decreases n - i,
    {
        proof {
            assert(lines@[i as int]@ == ls[i as int]);
        }
        let toks = crate::text::whitespace_tokens(lines[i].as_str());
        if toks.len() >= 2 {
            proof {
                assert(toks@[0]@ == tokens_of(ls[i as int])[0]);
                assert(toks@[1]@ == tokens_of(ls[i as int])[1]);
            }
            let class_name = class_name_of(toks[1].as_str());
            if !excluded_name(class_name.as_str()) {
                let name = if full_path {
                    toks[1].clone()
                } else {
                    class_name
                };
                let e = JpsEntry { pid: toks[0].clone(), name };
                proof {
                    assert(entry_views(out@.push(e)) =~~= entry_views(out@).push(
                        (e.pid@, e.name@),
                    ));
                }
                out.push(e);
            }
        }
        i += 1;
    }
    out
}

/// The container-id lines of a runtime's listing output.
pub fn parse_container_list(stdout: &str) -> (r: Vec<String>)
    ensures
        views(r@) == lines_of(stdout@),
{
    crate::text::split_lines(stdout)
}

/// Whether some process of `ps` carries this name.
pub open spec fn name_present(ps: Seq<ProcessInfo>, name: Seq<char>) -> bool {
    exists|i: int| 0 <= i < ps.len() && (#[trigger] ps[i]).process@ == name
}

/// Executable test for `name_present`.
fn has_name(ps: &Vec<ProcessInfo>, name: &String) -> (r: bool)
    ensures
        r == name_present(ps@, name@),
{
    let n = ps.len();
    let mut i: usize = 0;
    while i < n
        invariant
            n == ps@.len(),
            0 <= i <= n,
            forall|j: int| 0 <= j < i ==> (#[trigger] ps@[j]).process@ != name@,
        decreases n - i,
    {
        if ps[i].process == *name {
            return true;
        }
        i += 1;
    }
    false
}

/// The container processes kept after deduplication against the host: the
/// first `n` container findings whose process name no host process carries.
pub open spec fn deduped(host: Seq<ProcessInfo>, container: Seq<ProcessInfo>, n: int) -> Seq<
    ProcessInfo,
>
    decreases n,
{
    if n <= 0 {
        Seq::empty()
    } else {
        let prev = deduped(host, container, n - 1);
        if name_present(host, container[n - 1].process@) {
            prev
        } else {
            prev.push(container[n - 1])
        }
    }
}

/// Drop every container finding whose process name already exists on the
/// host — the host wins, since process names, not pids, identify a logical
/// service across execution contexts.
pub fn filter_container_duplicates(host: &Vec<ProcessInfo>, container: Vec<ProcessInfo>) -> (r:
    Vec<ProcessInfo>)
    ensures
        r@ == deduped(host@, container@, container@.len() as int),
{
    let n = container.len();
    let mut out: Vec<ProcessInfo> = Vec::new();
    let mut i: usize = 0;
    proof {
        assert(out@ =~= deduped(host@, container@, 0));
    }
    let mut rest = container;
    let ghost cont = rest@;
    let mut taken: usize = 0;
    while taken < n
        invariant
            n == cont.len(),
            0 <= taken <= n,
            rest@ == cont.skip(taken as int),
            out@ == deduped(host@, cont, taken as int),
        decreases n - taken,
    {
        let p = rest.remove(0);
        proof {
            assert(cont.skip(taken as int)[0] == cont[taken as int]);
            assert(cont.skip(taken as int).remove(0) =~= cont.skip(taken as int + 1));
        }
        if !has_name(host, &p.process) {
            out.push(p);
        }
        taken += 1;
    }
    out
}

/// One host OS process as the process table reports it: its pid text, its
/// name, and its parent pid.
pub struct HostProcess {
    pub pid: String,
    pub name: String,
    pub ppid: u64,
}

/// The system processes selected from the first `n` table entries: those
/// whose name matches one of the patterns and whose parent is init.
pub open spec fn selected_system(
    table: Seq<HostProcess>,
    srcs: Seq<Seq<char>>,
    n: int,
) -> Seq<HostProcess>
    decreases n,
{
    if n <= 0 {
        Seq::empty()
    } else {
        let prev = selected_system(table, srcs, n - 1);
        if any_match(srcs, table[n - 1].name@) && table[n - 1].ppid == 1u64 {
            prev.push(table[n - 1])
        } else {
            prev
        }
    }
}

/// The views of a sequence of process infos.
pub open spec fn info_views(ps: Seq<ProcessInfo>) -> Seq<(Seq<char>, Seq<char>, Seq<char>)> {
    ps.map_values(|p: ProcessInfo| (p.container@, p.pid@, p.process@))
}

/// The system-scope process infos of selected table entries.
pub open spec fn system_infos(sel: Seq<HostProcess>) -> Seq<(Seq<char>, Seq<char>, Seq<char>)> {
    sel.map_values(
        |h: HostProcess| (crate::identity::system_scope_text(), h.pid@, h.name@),
    )
}

/// Scan the host process table for configured system processes: kept are
/// exactly the entries whose name matches one of the compiled patterns and
/// whose parent pid is the init process, under the `system` scope.
pub fn select_system_processes(table: &Vec<HostProcess>, pats: &Vec<CompiledPattern>) -> (r: Vec<
    ProcessInfo,
>)
    ensures
        info_views(r@) == system_infos(
            selected_system(table@, pattern_sources(pats@), table@.len() as int),
        ),
{
    let n = table.len();
    let mut out: Vec<ProcessInfo> = Vec::new();
    let mut i: usize = 0;
    let ghost srcs = pattern_sources(pats@);
    proof {
        assert(info_views(out@) =~~= system_infos(selected_system(table@, srcs, 0)));
    }
    while i < n
        invariant
            n == table@.len(),
            srcs == pattern_sources(pats@),
            0 <= i <= n,
            info_views(out@) == system_infos(selected_system(table@, srcs, i as int)),
        decreases n - i,
    {
        if crate::pattern::matches_any(pats, table[i].name.as_str()) && table[i].ppid == 1 {
            let p = ProcessInfo {
                container: crate::identity::system_scope(),
                pid: table[i].pid.clone(),
                process: table[i].name.clone(),
            };
            proof {
                assert(info_views(out@.push(p)) =~~= info_views(out@).push(
                    (p.container@, p.pid@, p.process@),
                ));
                assert(system_infos(selected_system(table@, srcs, i + 1)) =~~= system_infos(
                    selected_system(table@, srcs, i as int),
                ).push(
                    (
                        crate::identity::system_scope_text(),
                        table@[i as int].pid@,
                        table@[i as int].name@,
                    ),
                ));
            }
            out.push(p);
        } else {
            proof {
                assert(selected_system(table@, srcs, i + 1) =~= selected_system(
                    table@,
                    srcs,
                    i as int,
                ));
            }
        }
        i += 1;
    }
    out
}

/// The host-scope process infos of lister entries.
pub open spec fn host_infos(es: Seq<JpsEntry>) -> Seq<(Seq<char>, Seq<char>, Seq<char>)> {
    es.map_values(|e: JpsEntry| (crate::identity::host_scope_text(), e.pid@, e.name@))
}

/// Turn host lister entries into host-scope process infos.
pub fn host_processes(es: Vec<JpsEntry>) -> (r: Vec<ProcessInfo>)
    ensures
        info_views(r@) == host_infos(es@),
{
    let n = es.len();
    let mut out: Vec<ProcessInfo> = Vec::new();
    let mut rest = es;
    let ghost all = rest@;
    let mut taken: usize = 0;
    proof {
        assert(info_views(out@) =~~= host_infos(all.take(0)));
    }
    while taken < n
        invariant
            n == all.len(),
            0 <= taken <= n,
            rest@ == all.skip(taken as int),
            info_views(out@) == host_infos(all.take(taken as int)),
        decreases n - taken,
    {
        let e = rest.remove(0);
        let ghost epid = e.pid@;
        let ghost ename = e.name@;
        proof {
            assert(all.skip(taken as int)[0] == all[taken as int]);
            assert(all.skip(taken as int).remove(0) =~= all.skip(taken as int + 1));
            assert(epid == all[taken as int].pid@ && ename == all[taken as int].name@);
        }
        let p = ProcessInfo { container: crate::identity::host_scope(), pid: e.pid, process: e.name };
        proof {
            assert(p.pid@ == epid && p.process@ == ename);
            assert(all.take(taken as int + 1)[taken as int] == all[taken as int]);
            assert(info_views(out@).len() == out@.len());
            assert(host_infos(all.take(taken as int)).len() == all.take(taken as int).len());
            assert(out@.len() == taken as int);
            assert(info_views(out@.push(p)).len() == taken as int + 1);
            assert(host_infos(all.take(taken as int + 1)).len() == taken as int + 1);
            assert(p.container@ == crate::identity::host_scope_text());
            assert(info_views(out@.push(p))[taken as int] == (
                p.container@,
                p.pid@,
                p.process@,
            ));
            assert(host_infos(all.take(taken as int + 1))[taken as int] == (
                crate::identity::host_scope_text(),
                all[taken as int].pid@,
                all[taken as int].name@,
            ));
            assert forall|j: int| 0 <= j < taken implies info_views(out@.push(p))[j] == host_infos(
                all.take(taken as int + 1),
            )[j] by {
                assert(out@.push(p)[j] == out@[j]);
                assert(info_views(out@.push(p))[j] == info_views(out@)[j]);
                assert(all.take(taken as int + 1)[j] == all[j]);
                assert(all.take(taken as int)[j] == all[j]);
                assert(host_infos(all.take(taken as int + 1))[j] == host_infos(
                    all.take(taken as int),
                )[j]);
            }
            assert(info_views(out@.push(p)) =~~= host_infos(all.take(taken as int + 1)));
        }
        out.push(p);
        taken += 1;
    }
    proof {
        assert(all.take(n as int) =~= all);
    }
    out
}

/// Assemble one discovery outcome: the host processes, then the container
/// processes that do not duplicate a host process name, then the system
/// processes.  A missing or failed container runtime simply contributes an
/// empty container list; host and system findings are never affected by it.
pub fn assemble_discovery(
    host: Vec<ProcessInfo>,
    container: Vec<ProcessInfo>,
    system: Vec<ProcessInfo>,
) -> (r: Vec<ProcessInfo>)
    ensures
        r@ == host@ + deduped(host@, container@, container@.len() as int) + system@,
{
    let ghost h = host@;
    let ghost c = container@;
    let ghost s = system@;
    let mut out = host;
    let ghost hsnap = out@;
    let mut kept = filter_container_duplicates(&out, container);
    out.append(&mut kept);
    let mut system = system;
    out.append(&mut system);
    proof {
        assert(out@ =~= h + deduped(h, c, c.len() as int) + s);
    }
    out
}

/// Law: discovery is resilient to a missing container runtime.  When the
/// container probe fails and contributes nothing, the assembled discovery
/// outcome is exactly the host and system findings — nothing is lost and no
/// error arises.
pub proof fn lemma_partial_runtime_resilience(
    host: Seq<ProcessInfo>,
    container: Seq<ProcessInfo>,
    system: Seq<ProcessInfo>,
)
    requires
        container.len() == 0,
    ensures
        host + deduped(host, container, container.len() as int) + system == host + system,
{
    assert(host + deduped(host, container, 0) + system =~= host + system);
}

} // verus!
