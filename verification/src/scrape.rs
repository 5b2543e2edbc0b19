//! One scrape cycle against the registry.
//!
//! After discovery has produced the process list and the external runner
//! has collected the resource values and the diagnostic-tool outputs, this
//! module applies them in order: reconcile the lifecycle against the
//! discovered set, write the per-process resource gauges, then apply each
//! diagnostic output that came back.  A failing sample
//! contributes nothing and never disturbs the rest of the cycle.

use vstd::prelude::*;
use crate::identity::ProcessInfo;
use crate::kv::StrMap;
use crate::parse::{
    parse_table,
    reading_views,
    table_mismatched,
    table_readings,
    table_truncated,
    ParseError,
};
use crate::registry::{
    readings_inserted,
    reading_names,
    tcp_state_texts,
    Metrics,
    ProcessGaugeValues,
};
use crate::text::views;

verus! {

/// The identity mapping a discovery outcome induces: each identity key to
/// its process name, later findings overwriting earlier ones.
pub open spec fn current_map(ps: Seq<ProcessInfo>, n: int) -> Map<Seq<Seq<char>>, Seq<char>>
    decreases n,
{
    if n <= 0 {
        Map::empty()
    } else {
        current_map(ps, n - 1).insert(ps[n - 1].id(), ps[n - 1].process@)
    }
}

/// A key is in the induced mapping exactly when some finding carries it.
pub proof fn lemma_current_map_contains(ps: Seq<ProcessInfo>, n: int, k: Seq<Seq<char>>)
    requires
        0 <= n <= ps.len(),
    ensures
        current_map(ps, n).dom().contains(k) <==> exists|i: int|
            0 <= i < n && (#[trigger] ps[i]).id() == k,
    decreases n,
{
    if n > 0 {
        lemma_current_map_contains(ps, n - 1, k);
        if ps[n - 1].id() == k {
        } else if exists|i: int| 0 <= i < n && (#[trigger] ps[i]).id() == k {
            let i = choose|i: int| 0 <= i < n && (#[trigger] ps[i]).id() == k;
            if i < n - 1 {
                assert(exists|i2: int| 0 <= i2 < n - 1 && (#[trigger] ps[i2]).id() == k);
            }
        }
    }
}

/// No two findings share an identity key.
pub open spec fn distinct_ids(ps: Seq<ProcessInfo>) -> bool {
    forall|i: int, j: int|
        0 <= i < j < ps.len() ==> (#[trigger] ps[i]).id() != (#[trigger] ps[j]).id()
}

/// With distinct identity keys, each finding maps to its own name.
pub proof fn lemma_current_map_value(ps: Seq<ProcessInfo>, n: int, i: int)
    requires
        distinct_ids(ps),
        0 <= i < n <= ps.len(),
    ensures
        current_map(ps, n).dom().contains(ps[i].id()),
        current_map(ps, n)[ps[i].id()] == ps[i].process@,
    decreases n,
{
    if i == n - 1 {
    } else {
        lemma_current_map_value(ps, n - 1, i);
        assert(ps[i].id() != ps[n - 1].id());
    }
}

/// Build the identity mapping of a discovery outcome.
pub fn build_current(ps: &Vec<ProcessInfo>) -> (r: StrMap<String>)
    ensures
        r.wf(),
        r.map_view() == current_map(ps@, ps@.len() as int),
        forall|k: Seq<Seq<char>>| #[trigger] r.map_view().dom().contains(k) ==> k.len() == 2,
{
    let n = ps.len();
    let mut r: StrMap<String> = StrMap::new();
    let mut i: usize = 0;
    proof {
        assert(r.map_view() =~= current_map(ps@, 0));
    }
    while i < n
        invariant
            n == ps@.len(),
            0 <= i <= n,
            r.wf(),
            r.map_view() == current_map(ps@, i as int),
        decreases n - i,
    {
        let key = ps[i].id_key();
        r.set(key, ps[i].process.clone());
        i += 1;
    }
    proof {
        assert forall|k: Seq<Seq<char>>| #[trigger]
            r.map_view().dom().contains(k) implies k.len() == 2 by {
            lemma_current_map_contains(ps@, n as int, k);
        }
    }
    r
}

/// Apply one diagnostic-tool output to the registry: parse the two-line
/// table, write every reading into the command's gauge family, extend the
/// label index, and hand back the metric names that were written and
/// whether the header and value counts disagreed.  Truncated output changes
/// nothing at all.
pub fn apply_jstat_output(m: &mut Metrics, cmd_idx: usize, p: &ProcessInfo, stdout: &str) -> (r:
    Result<(Vec<String>, bool), ParseError>)
    requires
        old(m).inv(),
        cmd_idx < old(m).process_metrics.jstat_metrics@.len(),
        old(m).active().dom().contains(p.id()),
        old(m).active()[p.id()] == p.process@,
    ensures
        final(m).inv(),
        r is Err <==> table_truncated(stdout@),
        r is Err ==> *final(m) == *old(m),
        r matches Ok(out) ==> out.1 == table_mismatched(stdout@) && views(out.0@)
            == reading_names(table_readings(stdout@)),
        r is Ok ==> final(m).process_metrics.jstat_metrics@[cmd_idx as int].family.view_map()
            == readings_inserted(
            old(m).process_metrics.jstat_metrics@[cmd_idx as int].family.view_map(),
            p.label_view(),
            table_readings(stdout@),
            table_readings(stdout@).len() as int,
        ),
        final(m).process_metrics.cpu_usage == old(m).process_metrics.cpu_usage,
        final(m).process_metrics.memory_usage == old(m).process_metrics.memory_usage,
        final(m).process_metrics.memory_usage_percentage == old(
            m,
        ).process_metrics.memory_usage_percentage,
        final(m).process_metrics.start_time == old(m).process_metrics.start_time,
        final(m).process_metrics.up_time == old(m).process_metrics.up_time,
        final(m).process_metrics.open_file == old(m).process_metrics.open_file,
        final(m).process_metrics.open_file_limit == old(m).process_metrics.open_file_limit,
        final(m).process_metrics.tcp_connection_states == old(
            m,
        ).process_metrics.tcp_connection_states,
        final(m).system_metrics == old(m).system_metrics,
        final(m).active_pids == old(m).active_pids,
        final(m).commands() == old(m).commands(),
        final(m).process_metrics.jstat_metrics@.len() == old(
            m,
        ).process_metrics.jstat_metrics@.len(),
{
    match parse_table(stdout) {
        Err(e) => Err(e),
        Ok(tp) => {
            let ghost rv = table_readings(stdout@);
            proof {
                assert(reading_views(tp.readings@) == rv);
            }
            m.record_jstat(cmd_idx, p, &tp.readings);
            let rn = tp.readings.len();
            let mut names: Vec<String> = Vec::new();
            let mut i: usize = 0;
            proof {
                assert(rv.len() == tp.readings@.len());
                assert(views(names@) =~~= reading_names(rv).take(0));
            }
            while i < rn
                invariant
                    rn == tp.readings@.len(),
                    rv == reading_views(tp.readings@),
                    rv.len() == rn,
                    0 <= i <= rn,
                    views(names@) == reading_names(rv).take(i as int),
                decreases rn - i,
            {
                proof {
                    assert(reading_views(tp.readings@)[i as int] == crate::parse::reading_view(
                        tp.readings@[i as int],
                    ));
                    assert(reading_names(rv)[i as int] == rv[i as int].0);
                }
                let nm = tp.readings[i].name.clone();
                proof {
                    crate::text::lemma_views_push(names@, nm);
                }
                names.push(nm);
                proof {
                    assert(views(names@) =~~= reading_names(rv).take(i + 1));
                }
                i += 1;
            }
            proof {
                assert(reading_names(rv).take(rn as int) =~= reading_names(rv));
            }
            Ok((names, tp.mismatched))
        },
    }
}

/// Every state series set by `tcp_inserted` is in its result.
proof fn lemma_tcp_inserted_contains(
    m: Map<Seq<Seq<char>>, Seq<char>>,
    l3: Seq<Seq<char>>,
    counts: Seq<String>,
    n: int,
    t: int,
)
    requires
        0 <= t < n,
    ensures
        crate::registry::tcp_inserted(m, l3, counts, n).dom().contains(
            l3.push(tcp_state_texts()[t]),
        ),
    decreases n,
{
    if t < n - 1 {
        lemma_tcp_inserted_contains(m, l3, counts, n - 1, t);
    }
}

/// `tcp_inserted` never drops a series.
proof fn lemma_tcp_inserted_preserves(
    m: Map<Seq<Seq<char>>, Seq<char>>,
    l3: Seq<Seq<char>>,
    counts: Seq<String>,
    n: int,
    k: Seq<Seq<char>>,
)
    requires
        m.dom().contains(k),
    ensures
        crate::registry::tcp_inserted(m, l3, counts, n).dom().contains(k),
    decreases n,
{
    if n > 0 {
        lemma_tcp_inserted_preserves(m, l3, counts, n - 1, k);
    }
}

/// Whether some discovered process with a successful resource sample
/// carries this label combination.
pub open spec fn sampled_label(
    ps: Seq<ProcessInfo>,
    samples: Seq<Option<ProcessGaugeValues>>,
    k: Seq<Seq<char>>,
) -> bool {
    exists|i: int|
        0 <= i < ps.len() && samples[i] is Some && (#[trigger] ps[i]).label_view() == k
}

/// One diagnostic sampling job as the runner reports it: which process and
/// command it belongs to, and the raw output when the tool ran and exited
/// successfully.
pub struct JstatJob {
    pub proc_idx: usize,
    pub cmd_idx: usize,
    pub output: Option<String>,
}

/// The shape every per-process resource family has after a scrape: the
/// series of every sampled process, plus the surviving series of
/// still-discovered identities.
pub open spec fn scraped_family(
    fam: Map<Seq<Seq<char>>, Seq<char>>,
    old_fam: Map<Seq<Seq<char>>, Seq<char>>,
    ps: Seq<ProcessInfo>,
    samples: Seq<Option<ProcessGaugeValues>>,
    cur: Map<Seq<Seq<char>>, Seq<char>>,
) -> bool {
    forall|k: Seq<Seq<char>>| #[trigger]
        fam.dom().contains(k) <==> (sampled_label(ps, samples, k) || (old_fam.dom().contains(k)
            && k.len() >= 3 && cur.dom().contains(seq![k[0], k[1]])))
}

/// Run one scrape cycle: reconcile the registry against the discovered
/// processes, write the resource gauges of every process the runner could
/// sample, then apply every diagnostic output that came back.
///
/// Two of the exporter's laws stand in the contract.  Label-lifecycle
/// exactness: when every resource sample succeeded, the label combinations
/// of each per-process resource family are exactly the labels of the
/// discovered processes — no orphaned series survive and none is missing.
/// Scrape liveness: the resource series of every sampled process is
/// present however many diagnostic invocations failed, even all of them.
pub fn run_scrape(
    m: &mut Metrics,
    discovered: &Vec<ProcessInfo>,
    samples: &Vec<Option<ProcessGaugeValues>>,
    jobs: &Vec<JstatJob>,
)
    requires
        old(m).inv(),
        distinct_ids(discovered@),
        forall|k: Seq<Seq<char>>|
            old(m).active().dom().contains(k) && #[trigger] current_map(
                discovered@,
                discovered@.len() as int,
            ).dom().contains(k) ==> current_map(discovered@, discovered@.len() as int)[k] == old(
                m,
            ).active()[k],
        samples@.len() == discovered@.len(),
        forall|i: int|
            0 <= i < samples@.len() ==> (#[trigger] samples@[i] matches Some(v)
                ==> v.tcp_counts@.len() == tcp_state_texts().len()),
        forall|j: int|
            0 <= j < jobs@.len() ==> (#[trigger] jobs@[j]).proc_idx < discovered@.len()
                && jobs@[j].cmd_idx < old(m).process_metrics.jstat_metrics@.len(),
    ensures
        final(m).inv(),
        final(m).active() == current_map(discovered@, discovered@.len() as int),
        forall|k: Seq<Seq<char>>| #[trigger]
            final(m).active().dom().contains(k) <==> exists|i: int|
                0 <= i < discovered@.len() && (#[trigger] discovered@[i]).id() == k,
        scraped_family(
            final(m).process_metrics.cpu_usage.view_map(),
            old(m).process_metrics.cpu_usage.view_map(),
            discovered@,
            samples@,
            current_map(discovered@, discovered@.len() as int),
        ),
        scraped_family(
            final(m).process_metrics.memory_usage.view_map(),
            old(m).process_metrics.memory_usage.view_map(),
            discovered@,
            samples@,
            current_map(discovered@, discovered@.len() as int),
        ),
        scraped_family(
            final(m).process_metrics.memory_usage_percentage.view_map(),
            old(m).process_metrics.memory_usage_percentage.view_map(),
            discovered@,
            samples@,
            current_map(discovered@, discovered@.len() as int),
        ),
        scraped_family(
            final(m).process_metrics.start_time.view_map(),
            old(m).process_metrics.start_time.view_map(),
            discovered@,
            samples@,
            current_map(discovered@, discovered@.len() as int),
        ),
        scraped_family(
            final(m).process_metrics.up_time.view_map(),
            old(m).process_metrics.up_time.view_map(),
            discovered@,
            samples@,
            current_map(discovered@, discovered@.len() as int),
        ),
        scraped_family(
            final(m).process_metrics.open_file.view_map(),
            old(m).process_metrics.open_file.view_map(),
            discovered@,
            samples@,
            current_map(discovered@, discovered@.len() as int),
        ),
        scraped_family(
            final(m).process_metrics.open_file_limit.view_map(),
            old(m).process_metrics.open_file_limit.view_map(),
            discovered@,
            samples@,
            current_map(discovered@, discovered@.len() as int),
        ),
        forall|i: int|
            0 <= i < discovered@.len() && samples@[i] is Some
                ==> (#[trigger] final(m).process_metrics.tcp_connection_states.view_map().dom().contains(
                discovered@[i].label_view().push(tcp_state_texts()[0]),
            )),
        // label-lifecycle exactness, the all-samples-succeed case
        (forall|i: int| 0 <= i < samples@.len() ==> (#[trigger] samples@[i]) is Some) ==> (forall|
            k: Seq<Seq<char>>,
        | #[trigger]
            final(m).process_metrics.cpu_usage.view_map().dom().contains(k) <==> exists|i: int|
                0 <= i < discovered@.len() && (#[trigger] discovered@[i]).label_view() == k),
        // scrape liveness: sampled identities are present whatever the
        // diagnostic outcomes were
        forall|i: int|
            0 <= i < discovered@.len() && samples@[i] is Some
                ==> #[trigger] final(m).process_metrics.cpu_usage.view_map().dom().contains(
                discovered@[i].label_view(),
            ),
{
    let nd = discovered.len();
    let ghost cur = current_map(discovered@, discovered@.len() as int);
    let current = build_current(discovered);
    m.reconcile(current);

    // write the resource gauges of every sampled process
    let mut i: usize = 0;
    proof {
        assert forall|k: Seq<Seq<char>>| #[trigger]
            m.process_metrics.cpu_usage.view_map().dom().contains(k) implies (old(
            m,
        ).process_metrics.cpu_usage.view_map().dom().contains(k) && k.len() >= 3
            && cur.dom().contains(seq![k[0], k[1]])) by {}
    }
    while i < nd
        invariant
            old(m).inv(),
            m.inv(),
            nd == discovered@.len(),
            samples@.len() == nd,
            distinct_ids(discovered@),
            cur == current_map(discovered@, discovered@.len() as int),
            0 <= i <= nd,
            m.active() == cur,
            forall|q: int|
                0 <= q < samples@.len() ==> (#[trigger] samples@[q] matches Some(v)
                    ==> v.tcp_counts@.len() == tcp_state_texts().len()),
            forall|k: Seq<Seq<char>>| #[trigger]
                m.process_metrics.cpu_usage.view_map().dom().contains(k) <==> ((exists|q: int|
                    0 <= q < i && samples@[q] is Some && (#[trigger] discovered@[q]).label_view()
                        == k) || (old(m).process_metrics.cpu_usage.view_map().dom().contains(k)
                    && k.len() >= 3 && cur.dom().contains(seq![k[0], k[1]]))),
            forall|k: Seq<Seq<char>>| #[trigger]
                m.process_metrics.memory_usage.view_map().dom().contains(k) <==> ((exists|q: int|
                    0 <= q < i && samples@[q] is Some && (#[trigger] discovered@[q]).label_view()
                        == k) || (old(m).process_metrics.memory_usage.view_map().dom().contains(k)
                    && k.len() >= 3 && cur.dom().contains(seq![k[0], k[1]]))),
            forall|k: Seq<Seq<char>>| #[trigger]
                m.process_metrics.memory_usage_percentage.view_map().dom().contains(k) <==> ((
                exists|q: int|
                    0 <= q < i && samples@[q] is Some && (#[trigger] discovered@[q]).label_view()
                        == k) || (old(
                    m,
                ).process_metrics.memory_usage_percentage.view_map().dom().contains(k) && k.len()
                    >= 3 && cur.dom().contains(seq![k[0], k[1]]))),
            forall|k: Seq<Seq<char>>| #[trigger]
                m.process_metrics.start_time.view_map().dom().contains(k) <==> ((exists|q: int|
                    0 <= q < i && samples@[q] is Some && (#[trigger] discovered@[q]).label_view()
                        == k) || (old(m).process_metrics.start_time.view_map().dom().contains(k)
                    && k.len() >= 3 && cur.dom().contains(seq![k[0], k[1]]))),
            forall|k: Seq<Seq<char>>| #[trigger]
                m.process_metrics.up_time.view_map().dom().contains(k) <==> ((exists|q: int|
                    0 <= q < i && samples@[q] is Some && (#[trigger] discovered@[q]).label_view()
                        == k) || (old(m).process_metrics.up_time.view_map().dom().contains(k)
                    && k.len() >= 3 && cur.dom().contains(seq![k[0], k[1]]))),
            forall|k: Seq<Seq<char>>| #[trigger]
                m.process_metrics.open_file.view_map().dom().contains(k) <==> ((exists|q: int|
                    0 <= q < i && samples@[q] is Some && (#[trigger] discovered@[q]).label_view()
                        == k) || (old(m).process_metrics.open_file.view_map().dom().contains(k)
                    && k.len() >= 3 && cur.dom().contains(seq![k[0], k[1]]))),
            forall|k: Seq<Seq<char>>| #[trigger]
                m.process_metrics.open_file_limit.view_map().dom().contains(k) <==> ((exists|
                    q: int,
                |
                    0 <= q < i && samples@[q] is Some && (#[trigger] discovered@[q]).label_view()
                        == k) || (old(
                    m,
                ).process_metrics.open_file_limit.view_map().dom().contains(k) && k.len() >= 3
                    && cur.dom().contains(seq![k[0], k[1]]))),
            forall|q: int|
                0 <= q < i && samples@[q] is Some ==> (#[trigger] m
                    .process_metrics
                    .tcp_connection_states
                    .view_map()
                    .dom()
                    .contains(discovered@[q].label_view().push(tcp_state_texts()[0]))),
            m.process_metrics.jstat_metrics@.len() == old(
                m,
            ).process_metrics.jstat_metrics@.len(),
            m.commands() == old(m).commands(),
        decreases nd - i,
    {
        match &samples[i] {
            Some(vals) => {
                proof {
                    lemma_current_map_value(discovered@, nd as int, i as int);
                }
                let ghost before = *m;
                m.set_process_gauges(&discovered[i], vals);
                proof {
                    let l3 = discovered@[i as int].label_view();
                    lemma_tcp_inserted_contains(
                        before.process_metrics.tcp_connection_states.view_map(),
                        l3,
                        vals.tcp_counts@,
                        tcp_state_texts().len() as int,
                        0,
                    );
                    assert forall|q: int| 0 <= q < i + 1 && samples@[q] is Some implies (
                    #[trigger] m.process_metrics.tcp_connection_states.view_map().dom().contains(
                        discovered@[q].label_view().push(tcp_state_texts()[0]),
                    )) by {
                        if q < i {
                            lemma_tcp_inserted_preserves(
                                before.process_metrics.tcp_connection_states.view_map(),
                                l3,
                                vals.tcp_counts@,
                                tcp_state_texts().len() as int,
                                discovered@[q].label_view().push(tcp_state_texts()[0]),
                            );
                        }
                    }
                }
            },
            None => {},
        }
        i += 1;
    }

    // apply the diagnostic outputs that came back
    let ghost after_samples = *m;
    let nj = jobs.len();
    let mut j: usize = 0;
    while j < nj
        invariant
            m.inv(),
            nj == jobs@.len(),
            nd == discovered@.len(),
            distinct_ids(discovered@),
            cur == current_map(discovered@, discovered@.len() as int),
            0 <= j <= nj,
            m.active() == cur,
            forall|q: int|
                0 <= q < jobs@.len() ==> (#[trigger] jobs@[q]).proc_idx < nd && jobs@[q].cmd_idx
                    < m.process_metrics.jstat_metrics@.len(),
            m.process_metrics.cpu_usage == after_samples.process_metrics.cpu_usage,
            m.process_metrics.memory_usage == after_samples.process_metrics.memory_usage,
            m.process_metrics.memory_usage_percentage
                == after_samples.process_metrics.memory_usage_percentage,
            m.process_metrics.start_time == after_samples.process_metrics.start_time,
            m.process_metrics.up_time == after_samples.process_metrics.up_time,
            m.process_metrics.open_file == after_samples.process_metrics.open_file,
            m.process_metrics.open_file_limit == after_samples.process_metrics.open_file_limit,
            m.process_metrics.tcp_connection_states
                == after_samples.process_metrics.tcp_connection_states,
            m.process_metrics.jstat_metrics@.len()
                == after_samples.process_metrics.jstat_metrics@.len(),
        decreases nj - j,
    {
        let pi = jobs[j].proc_idx;
        let ci = jobs[j].cmd_idx;
        match &jobs[j].output {
            Some(out) => {
                proof {
                    lemma_current_map_value(discovered@, nd as int, pi as int);
                }
                let _ = apply_jstat_output(m, ci, &discovered[pi], out.as_str());
            },
            None => {},
        }
        j += 1;
    }
    proof {
        assert forall|k: Seq<Seq<char>>| #[trigger]
            m.active().dom().contains(k) <==> exists|i2: int|
                0 <= i2 < discovered@.len() && (#[trigger] discovered@[i2]).id() == k by {
            lemma_current_map_contains(discovered@, discovered@.len() as int, k);
        }
        if forall|i2: int| 0 <= i2 < samples@.len() ==> (#[trigger] samples@[i2]) is Some {
            assert forall|k: Seq<Seq<char>>| #[trigger]
                m.process_metrics.cpu_usage.view_map().dom().contains(k) <==> exists|i2: int|
                    0 <= i2 < discovered@.len() && (#[trigger] discovered@[i2]).label_view()
                        == k by {
                if m.process_metrics.cpu_usage.view_map().dom().contains(k) {
                    if sampled_label(discovered@, samples@, k) {
                    } else {
                        assert(cur.dom().contains(seq![k[0], k[1]]));
                        lemma_current_map_contains(discovered@, discovered@.len() as int, seq![
                            k[0],
                            k[1],
                        ]);
                        let w = choose|w: int|
                            0 <= w < discovered@.len() && (#[trigger] discovered@[w]).id() == seq![
                                k[0],
                                k[1],
                            ];
                        lemma_current_map_value(discovered@, discovered@.len() as int, w);
                        assert(old(m).inv());
                        assert(crate::registry::fam_ok(
                            old(m).ident_families()[0],
                            old(m).active(),
                        ));
                        assert(old(m).ident_families()[0] == old(
                            m,
                        ).process_metrics.cpu_usage.view_map());
                        assert(crate::registry::ident_ok(k, old(m).active()));
                        assert(old(m).active()[seq![k[0], k[1]]] == k[2]);
                        assert(cur[seq![k[0], k[1]]] == old(m).active()[seq![k[0], k[1]]]);
                        assert(discovered@[w].process@ == k[2]);
                        assert(discovered@[w].label_view() =~~= k);
                    }
                } else {
                    if exists|i2: int|
                        0 <= i2 < discovered@.len() && (#[trigger] discovered@[i2]).label_view()
                            == k {
                        let w = choose|w: int|
                            0 <= w < discovered@.len() && (#[trigger] discovered@[w]).label_view()
                                == k;
                        assert(samples@[w] is Some);
                        assert(sampled_label(discovered@, samples@, k));
                        assert(false);
                    }
                }
            }
        }
    }
}

} // verus!
