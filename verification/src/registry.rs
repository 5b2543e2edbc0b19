//! The metric registry and its lifecycle bookkeeping.
//!
//! The registry owns every exposed gauge family as a mapping from label
//! combinations to value texts, plus the two lifecycle structures: the
//! active identity set (`active_pids`) and the per-command label index
//! (`jstat_labels`), which records exactly which metric-name labels were
//! populated for each sampled process so eviction can remove them all.
//! An external exposition layer mirrors these families; the library's
//! contracts pin down which label combinations exist after every step.

use vstd::prelude::*;
use crate::identity::ProcessInfo;
use crate::kv::StrMap;
use crate::parse::Reading;
use crate::text::views;

verus! {

/// One gauge family: a name, the number of labels of each series, and the
/// series themselves, keyed by their label combination.
pub struct Family {
    pub name: String,
    pub arity: usize,
    pub map: StrMap<String>,
}

impl Family {
    /// The mapping from label combinations to value texts.
    pub open spec fn view_map(self) -> Map<Seq<Seq<char>>, Seq<char>> {
        self.map.map_view()
    }

    /// Well-formed: unique keys, every key of the family's arity.
    pub open spec fn wf(self) -> bool {
        &&& self.map.wf()
        &&& forall|k: Seq<Seq<char>>| #[trigger]
            self.view_map().dom().contains(k) ==> k.len() == self.arity
    }

    /// An empty family of the given name and arity.
    pub fn new(name: String, arity: usize) -> (r: Family)
        ensures
            r.wf(),
            r.name == name,
            r.arity == arity,
            r.view_map() == Map::<Seq<Seq<char>>, Seq<char>>::empty(),
    {
        Family { name, arity, map: StrMap::new() }
    }

    /// Set one series value, creating the series when absent.
    pub fn set(&mut self, key: Vec<String>, value: String)
        requires
            old(self).wf(),
            key@.len() == old(self).arity,
        ensures
            final(self).wf(),
            final(self).name == old(self).name,
            final(self).arity == old(self).arity,
            final(self).view_map() == old(self).view_map().insert(views(key@), value@),
    {
        let ghost kv = views(key@);
        proof {
            assert(kv.len() == key@.len());
        }
        self.map.set(key, value);
        proof {
            assert forall|k2: Seq<Seq<char>>| #[trigger]
                self.view_map().dom().contains(k2) implies k2.len() == self.arity by {
                if k2 != kv {
                    assert(old(self).view_map().dom().contains(k2));
                }
            }
        }
    }

    /// Drop one series; absent label combinations are a silent no-op.
    pub fn remove(&mut self, key: &Vec<String>)
        requires
            old(self).wf(),
        ensures
            final(self).wf(),
            final(self).name == old(self).name,
            final(self).arity == old(self).arity,
            final(self).view_map() == old(self).view_map().remove(views(key@)),
    {
        self.map.remove(key);
        proof {
            assert forall|k2: Seq<Seq<char>>| #[trigger]
                self.view_map().dom().contains(k2) implies k2.len() == self.arity by {
                assert(old(self).view_map().dom().contains(k2));
            }
        }
    }

    /// The value text of one series, if present.
    pub fn lookup<'a>(&'a self, key: &Vec<String>) -> (r: Option<&'a String>)
        requires
            self.wf(),
        ensures
            match r {
                Some(v) => self.view_map().dom().contains(views(key@)) && v@ == self.view_map()[
                    views(key@)
                ],
                None => !self.view_map().dom().contains(views(key@)),
            },
    {
        self.map.get(key)
    }

    /// Whether a series with these labels exists.
    pub fn contains(&self, key: &Vec<String>) -> (r: bool)
        ensures
            r == self.view_map().dom().contains(views(key@)),
    {
        self.map.contains(key)
    }

    /// How many series the family holds.
    pub fn series_count(&self) -> (r: usize)
        requires
            self.wf(),
        ensures
            r == self.map.entries@.len(),
    {
        self.map.len()
    }
}

/// The gauge family of one diagnostic command, labelled
/// `(container, pid, process_name, metric_name)`.
pub struct JstatFamily {
    pub command: String,
    pub family: Family,
}

/// The per-process gauge families.
pub struct ProcessMetrics {
    pub cpu_usage: Family,
    pub memory_usage: Family,
    pub memory_usage_percentage: Family,
    pub start_time: Family,
    pub up_time: Family,
    pub open_file: Family,
    pub open_file_limit: Family,
    pub tcp_connection_states: Family,
    pub jstat_metrics: Vec<JstatFamily>,
}

/// The host-level gauge families; they carry no per-process lifecycle.
pub struct SystemMetrics {
    pub cpu_usage: Family,
    pub memory_usage: Family,
    pub total_memory: Family,
    pub disk_usage: Family,
    pub total_disk: Family,
    pub network_receive_bytes_per_sec: Family,
    pub network_transmit_bytes_per_sec: Family,
    pub uptime: Family,
    pub total_swap: Family,
    pub swap_usage: Family,
    pub open_file: Family,
    pub open_file_limit: Family,
    pub tcp_connection_states: Family,
}

/// The registry: every gauge family plus the lifecycle state.
pub struct Metrics {
    pub process_metrics: ProcessMetrics,
    pub system_metrics: SystemMetrics,
    /// Identities believed alive: `[container, pid] -> process_name`.
    pub active_pids: StrMap<String>,
    /// Metric names last populated per command and identity:
    /// `[command, container, pid, process_name] -> metric names`.
    pub jstat_labels: StrMap<Vec<String>>,
}

/// The TCP connection states the exporter buckets connections into.
pub open spec fn tcp_state_texts() -> Seq<Seq<char>> {
    seq![
        "CLOSED"@,
        "LISTEN"@,
        "SYN_SENT"@,
        "SYN_RCVD"@,
        "ESTABLISHED"@,
        "FIN_WAIT_1"@,
        "FIN_WAIT_2"@,
        "CLOSE_WAIT"@,
        "CLOSING"@,
        "LAST_ACK"@,
        "TIME_WAIT"@,
        "DELETE_TCB"@,
    ]
}

/// The TCP state labels as strings.
pub fn tcp_state_names() -> (r: Vec<String>)
    ensures
        views(r@) == tcp_state_texts(),
{
    let mut r: Vec<String> = Vec::new();
    r.push(String::from_str("CLOSED"));
    r.push(String::from_str("LISTEN"));
    r.push(String::from_str("SYN_SENT"));
    r.push(String::from_str("SYN_RCVD"));
    r.push(String::from_str("ESTABLISHED"));
    r.push(String::from_str("FIN_WAIT_1"));
    r.push(String::from_str("FIN_WAIT_2"));
    r.push(String::from_str("CLOSE_WAIT"));
    r.push(String::from_str("CLOSING"));
    r.push(String::from_str("LAST_ACK"));
    r.push(String::from_str("TIME_WAIT"));
    r.push(String::from_str("DELETE_TCB"));
    proof {
        assert(views(r@) =~~= tcp_state_texts());
    }
    r
}

/// The diagnostic commands the exporter samples with.
pub open spec fn jstat_command_texts() -> Seq<Seq<char>> {
    seq!["-gc"@, "-class"@]
}

/// The diagnostic commands as strings.
pub fn jstat_commands() -> (r: Vec<String>)
    ensures
        views(r@) == jstat_command_texts(),
{
    let mut r: Vec<String> = Vec::new();
    r.push(String::from_str("-gc"));
    r.push(String::from_str("-class"));
    proof {
        assert(views(r@) =~~= jstat_command_texts());
    }
    r
}

/// The gauge-family name of one diagnostic command: `jstat_gc_metrics` for
/// `-gc`.
pub open spec fn jstat_family_name_text(cmd: Seq<char>) -> Seq<char> {
    "jstat_"@ + cmd.skip(1) + "_metrics"@
}

/// Build the gauge-family name of one diagnostic command.
pub fn jstat_family_name(cmd: &String) -> (r: String)
    requires
        cmd@.len() >= 1,
    ensures
        r@ == jstat_family_name_text(cmd@),
{
    let n = cmd.as_str().unicode_len();
    let tail = cmd.as_str().substring_char(1, n);
    let mut r = String::from_str("jstat_");
    r.append(tail);
    r.append("_metrics");
    proof {
        assert(cmd@.subrange(1, n as int) =~= cmd@.skip(1));
    }
    r
}

/// A label key is owned by a live identity: its first two labels are an
/// active identity whose recorded process name is the third label.
pub open spec fn ident_ok(k: Seq<Seq<char>>, active: Map<Seq<Seq<char>>, Seq<char>>) -> bool {
    &&& active.dom().contains(seq![k[0], k[1]])
    &&& active[seq![k[0], k[1]]] == k[2]
}

/// Some string of `names` reads as `t`.
pub open spec fn name_recorded(names: Seq<String>, t: Seq<char>) -> bool {
    exists|i: int| 0 <= i < names.len() && #[trigger] names[i]@ == t
}

/// A per-process family with three labels is owned by live identities.
pub open spec fn fam_ok(
    m: Map<Seq<Seq<char>>, Seq<char>>,
    active: Map<Seq<Seq<char>>, Seq<char>>,
) -> bool {
    forall|k: Seq<Seq<char>>| #[trigger] m.dom().contains(k) ==> ident_ok(k, active)
}

/// The TCP-state family is owned by live identities and uses only the known
/// state labels.
pub open spec fn tcp_fam_ok(
    m: Map<Seq<Seq<char>>, Seq<char>>,
    active: Map<Seq<Seq<char>>, Seq<char>>,
) -> bool {
    forall|k: Seq<Seq<char>>| #[trigger]
        m.dom().contains(k) ==> ident_ok(k, active) && tcp_state_texts().contains(k[3])
}

/// A diagnostic-command family is owned by live identities and every metric
/// name it exposes is recorded in the label index under its command.
pub open spec fn jstat_fam_ok(
    m: Map<Seq<Seq<char>>, Seq<char>>,
    cmd: Seq<char>,
    active: Map<Seq<Seq<char>>, Seq<char>>,
    index: Map<Seq<Seq<char>>, Seq<String>>,
) -> bool {
    forall|k: Seq<Seq<char>>| #[trigger]
        m.dom().contains(k) ==> ident_ok(k, active) && index.dom().contains(
            seq![cmd, k[0], k[1], k[2]],
        ) && name_recorded(index[seq![cmd, k[0], k[1], k[2]]], k[3])
}

/// Every label-index entry belongs to a live identity and to one of the
/// diagnostic commands.
pub open spec fn index_ok(
    index: Map<Seq<Seq<char>>, Seq<String>>,
    active: Map<Seq<Seq<char>>, Seq<char>>,
    commands: Seq<Seq<char>>,
) -> bool {
    forall|k: Seq<Seq<char>>| #[trigger]
        index.dom().contains(k) ==> k.len() == 4 && active.dom().contains(seq![k[1], k[2]])
            && active[seq![k[1], k[2]]] == k[3] && commands.contains(k[0])
}

impl Metrics {
    /// The commands of the diagnostic families, in order.
    pub open spec fn commands(self) -> Seq<Seq<char>> {
        self.process_metrics.jstat_metrics@.map_values(|jf: JstatFamily| jf.command@)
    }

    /// The identity families with `(container, pid, process_name)` labels.
    pub open spec fn ident_families(self) -> Seq<Map<Seq<Seq<char>>, Seq<char>>> {
        seq![
            self.process_metrics.cpu_usage.view_map(),
            self.process_metrics.memory_usage.view_map(),
            self.process_metrics.memory_usage_percentage.view_map(),
            self.process_metrics.start_time.view_map(),
            self.process_metrics.up_time.view_map(),
            self.process_metrics.open_file.view_map(),
            self.process_metrics.open_file_limit.view_map(),
        ]
    }

    /// The active identity set as a mapping.
    pub open spec fn active(self) -> Map<Seq<Seq<char>>, Seq<char>> {
        self.active_pids.map_view()
    }

    /// The label index as a mapping.
    pub open spec fn index(self) -> Map<Seq<Seq<char>>, Seq<String>> {
        self.jstat_labels.map_view()
    }

    /// Structural well-formedness: unique keys everywhere, the right
    /// arities, and active keys of length two.
    pub open spec fn wf_shapes(self) -> bool {
        &&& self.process_metrics.cpu_usage.wf() && self.process_metrics.cpu_usage.arity == 3
        &&& self.process_metrics.memory_usage.wf() && self.process_metrics.memory_usage.arity == 3
        &&& self.process_metrics.memory_usage_percentage.wf()
            && self.process_metrics.memory_usage_percentage.arity == 3
        &&& self.process_metrics.start_time.wf() && self.process_metrics.start_time.arity == 3
        &&& self.process_metrics.up_time.wf() && self.process_metrics.up_time.arity == 3
        &&& self.process_metrics.open_file.wf() && self.process_metrics.open_file.arity == 3
        &&& self.process_metrics.open_file_limit.wf()
            && self.process_metrics.open_file_limit.arity == 3
        &&& self.process_metrics.tcp_connection_states.wf()
            && self.process_metrics.tcp_connection_states.arity == 4
        &&& forall|i: int|
            0 <= i < self.process_metrics.jstat_metrics@.len() ==> (
            #[trigger] self.process_metrics.jstat_metrics@[i]).family.wf()
                && self.process_metrics.jstat_metrics@[i].family.arity == 4
        &&& self.active_pids.wf()
        &&& forall|k: Seq<Seq<char>>| #[trigger]
            self.active().dom().contains(k) ==> k.len() == 2
        &&& self.jstat_labels.wf()
    }

    /// The registry invariant: shapes are right and every exposed
    /// per-process label combination is owned by a live identity.
    pub open spec fn inv(self) -> bool {
        &&& self.wf_shapes()
        &&& forall|i: int|
            0 <= i < self.ident_families().len() ==> fam_ok(
                #[trigger] self.ident_families()[i],
                self.active(),
            )
        &&& tcp_fam_ok(self.process_metrics.tcp_connection_states.view_map(), self.active())
        &&& forall|i: int|
            0 <= i < self.process_metrics.jstat_metrics@.len() ==> jstat_fam_ok(
                (#[trigger] self.process_metrics.jstat_metrics@[i]).family.view_map(),
                self.process_metrics.jstat_metrics@[i].command@,
                self.active(),
                self.index(),
            )
        &&& index_ok(self.index(), self.active(), self.commands())
        &&& forall|e: int, f: int|
            0 <= e < f < self.commands().len() ==> self.commands()[e] != self.commands()[f]
    }

    /// A fresh registry: every family empty and named as exposed, one
    /// diagnostic family per command, nothing active, nothing indexed.
    pub fn new() -> (r: Metrics)
        ensures
            r.inv(),
            r.active() == Map::<Seq<Seq<char>>, Seq<char>>::empty(),
            r.index() == Map::<Seq<Seq<char>>, Seq<String>>::empty(),
            r.commands() == jstat_command_texts(),
            r.process_metrics.cpu_usage.name@ == "process_cpu_usage"@,
            r.process_metrics.cpu_usage.view_map() == Map::<Seq<Seq<char>>, Seq<char>>::empty(),
            r.process_metrics.memory_usage.name@ == "process_memory_usage_bytes"@,
            r.process_metrics.memory_usage.view_map() == Map::<
                Seq<Seq<char>>,
                Seq<char>,
            >::empty(),
            r.process_metrics.memory_usage_percentage.name@
                == "process_memory_usage_percentage"@,
            r.process_metrics.memory_usage_percentage.view_map() == Map::<
                Seq<Seq<char>>,
                Seq<char>,
            >::empty(),
            r.process_metrics.start_time.name@ == "process_start_time_seconds"@,
            r.process_metrics.start_time.view_map() == Map::<Seq<Seq<char>>, Seq<char>>::empty(),
            r.process_metrics.up_time.name@ == "process_up_time_seconds"@,
            r.process_metrics.up_time.view_map() == Map::<Seq<Seq<char>>, Seq<char>>::empty(),
            r.process_metrics.open_file.name@ == "process_open_file"@,
            r.process_metrics.open_file.view_map() == Map::<Seq<Seq<char>>, Seq<char>>::empty(),
            r.process_metrics.open_file_limit.name@ == "process_open_file_limit"@,
            r.process_metrics.open_file_limit.view_map() == Map::<
                Seq<Seq<char>>,
                Seq<char>,
            >::empty(),
            r.process_metrics.tcp_connection_states.name@ == "process_tcp_connection_states"@,
            r.process_metrics.tcp_connection_states.view_map() == Map::<
                Seq<Seq<char>>,
                Seq<char>,
            >::empty(),
            r.process_metrics.jstat_metrics@.len() == jstat_command_texts().len(),
            forall|i: int|
                0 <= i < jstat_command_texts().len() ==> (
                #[trigger] r.process_metrics.jstat_metrics@[i]).family.view_map() == Map::<
                    Seq<Seq<char>>,
                    Seq<char>,
                >::empty()
                    && r.process_metrics.jstat_metrics@[i].family.name@ == jstat_family_name_text(
                    jstat_command_texts()[i],
                ),
            r.system_metrics.cpu_usage.name@ == "system_cpu_usage_percentage"@,
            r.system_metrics.memory_usage.name@ == "system_memory_usage_bytes"@,
            r.system_metrics.total_memory.name@ == "system_total_memory_bytes"@,
            r.system_metrics.disk_usage.name@ == "system_disk_usage_bytes"@,
            r.system_metrics.total_disk.name@ == "system_total_disk_bytes"@,
            r.system_metrics.network_receive_bytes_per_sec.name@
                == "system_network_receive_bytes_per_sec"@,
            r.system_metrics.network_transmit_bytes_per_sec.name@
                == "system_network_transmit_bytes_per_sec"@,
            r.system_metrics.uptime.name@ == "system_uptime_seconds"@,
            r.system_metrics.total_swap.name@ == "system_total_swap_bytes"@,
            r.system_metrics.swap_usage.name@ == "system_swap_usage_bytes"@,
            r.system_metrics.open_file.name@ == "system_open_file"@,
            r.system_metrics.open_file_limit.name@ == "system_open_file_limit"@,
            r.system_metrics.tcp_connection_states.name@ == "system_tcp_connection_states"@,
            r.system_metrics.cpu_usage.wf() && r.system_metrics.memory_usage.wf()
                && r.system_metrics.total_memory.wf() && r.system_metrics.disk_usage.wf()
                && r.system_metrics.total_disk.wf()
                && r.system_metrics.network_receive_bytes_per_sec.wf()
                && r.system_metrics.network_transmit_bytes_per_sec.wf()
                && r.system_metrics.uptime.wf() && r.system_metrics.total_swap.wf()
                && r.system_metrics.swap_usage.wf() && r.system_metrics.open_file.wf()
                && r.system_metrics.open_file_limit.wf()
                && r.system_metrics.tcp_connection_states.wf(),
    {
        let commands = jstat_commands();
        let mut jstat_metrics: Vec<JstatFamily> = Vec::new();
        let n = commands.len();
        let mut i: usize = 0;
        while i < n
            invariant
                n == commands@.len(),
                views(commands@) == jstat_command_texts(),
                0 <= i <= n,
                jstat_metrics@.len() == i,
                forall|j: int|
                    0 <= j < i ==> (#[trigger] jstat_metrics@[j]).family.wf()
                        && jstat_metrics@[j].family.arity == 4
                        && jstat_metrics@[j].family.view_map() == Map::<
                        Seq<Seq<char>>,
                        Seq<char>,
                    >::empty() && jstat_metrics@[j].command@ == jstat_command_texts()[j]
                        && jstat_metrics@[j].family.name@ == jstat_family_name_text(
                        jstat_command_texts()[j],
                    ),
            decreases n - i,
        {
            proof {
                assert(commands@[i as int]@ == jstat_command_texts()[i as int]);
                reveal_strlit("-gc");
                reveal_strlit("-class");
                assert(views(commands@).len() == commands@.len());
                assert(jstat_command_texts().len() == 2);
                assert(i as int == 0 || i as int == 1);
                assert(jstat_command_texts()[0] == "-gc"@);
                assert(jstat_command_texts()[1] == "-class"@);
                assert("-gc"@.len() == 3);
                assert("-class"@.len() == 6);
                assert(commands@[i as int]@.len() >= 1);
            }
            let name = jstat_family_name(&commands[i]);
            jstat_metrics.push(
                JstatFamily { command: commands[i].clone(), family: Family::new(name, 4) },
            );
            i += 1;
        }
        let process_metrics = ProcessMetrics {
            cpu_usage: Family::new(String::from_str("process_cpu_usage"), 3),
            memory_usage: Family::new(String::from_str("process_memory_usage_bytes"), 3),
            memory_usage_percentage: Family::new(
                String::from_str("process_memory_usage_percentage"),
                3,
            ),
            start_time: Family::new(String::from_str("process_start_time_seconds"), 3),
            up_time: Family::new(String::from_str("process_up_time_seconds"), 3),
            open_file: Family::new(String::from_str("process_open_file"), 3),
            open_file_limit: Family::new(String::from_str("process_open_file_limit"), 3),
            tcp_connection_states: Family::new(
                String::from_str("process_tcp_connection_states"),
                4,
            ),
            jstat_metrics,
        };
        let system_metrics = SystemMetrics {
            cpu_usage: Family::new(String::from_str("system_cpu_usage_percentage"), 1),
            memory_usage: Family::new(String::from_str("system_memory_usage_bytes"), 1),
            total_memory: Family::new(String::from_str("system_total_memory_bytes"), 1),
            disk_usage: Family::new(String::from_str("system_disk_usage_bytes"), 2),
            total_disk: Family::new(String::from_str("system_total_disk_bytes"), 2),
            network_receive_bytes_per_sec: Family::new(
                String::from_str("system_network_receive_bytes_per_sec"),
                1,
            ),
            network_transmit_bytes_per_sec: Family::new(
                String::from_str("system_network_transmit_bytes_per_sec"),
                1,
            ),
            uptime: Family::new(String::from_str("system_uptime_seconds"), 1),
            total_swap: Family::new(String::from_str("system_total_swap_bytes"), 1),
            swap_usage: Family::new(String::from_str("system_swap_usage_bytes"), 1),
            open_file: Family::new(String::from_str("system_open_file"), 1),
            open_file_limit: Family::new(String::from_str("system_open_file_limit"), 1),
            tcp_connection_states: Family::new(
                String::from_str("system_tcp_connection_states"),
                2,
            ),
        };
        let r = Metrics {
            process_metrics,
            system_metrics,
            active_pids: StrMap::new(),
            jstat_labels: StrMap::new(),
        };
        proof {
            assert(r.commands() =~~= jstat_command_texts());
            reveal_strlit("-gc");
            reveal_strlit("-class");
            assert("-gc"@.len() != "-class"@.len());
            assert forall|e: int, f: int|
                0 <= e < f < r.commands().len() implies r.commands()[e] != r.commands()[f] by {
                assert(e == 0 && f == 1);
            }
        }
        r
    }
}

/// `fam_ok` survives inserting a key owned by a live identity.
proof fn lemma_fam_ok_insert(
    m: Map<Seq<Seq<char>>, Seq<char>>,
    active: Map<Seq<Seq<char>>, Seq<char>>,
    k: Seq<Seq<char>>,
    v: Seq<char>,
)
    requires
        fam_ok(m, active),
        ident_ok(k, active),
    ensures
        fam_ok(m.insert(k, v), active),
{
    assert forall|k2: Seq<Seq<char>>| #[trigger]
        m.insert(k, v).dom().contains(k2) implies ident_ok(k2, active) by {
        if k2 != k {
            assert(m.dom().contains(k2));
        }
    }
}

/// The value texts of one process's resource gauges, with one TCP count per
/// state of `tcp_state_texts`, in order.
pub struct ProcessGaugeValues {
    pub cpu: String,
    pub memory: String,
    pub memory_pct: String,
    pub start_time: String,
    pub up_time: String,
    pub open_files: String,
    pub open_files_limit: String,
    pub tcp_counts: Vec<String>,
}

/// The TCP-state series of one identity after setting the first `n` state
/// counts.
pub open spec fn tcp_inserted(
    m: Map<Seq<Seq<char>>, Seq<char>>,
    l3: Seq<Seq<char>>,
    counts: Seq<String>,
    n: int,
) -> Map<Seq<Seq<char>>, Seq<char>>
    decreases n,
{
    if n <= 0 {
        m
    } else {
        tcp_inserted(m, l3, counts, n - 1).insert(
            l3.push(tcp_state_texts()[n - 1]),
            counts[n - 1]@,
        )
    }
}

/// A diagnostic family after inserting the first `n` readings of one
/// identity.
pub open spec fn readings_inserted(
    m: Map<Seq<Seq<char>>, Seq<char>>,
    l3: Seq<Seq<char>>,
    rs: Seq<(Seq<char>, Seq<char>)>,
    n: int,
) -> Map<Seq<Seq<char>>, Seq<char>>
    decreases n,
{
    if n <= 0 {
        m
    } else {
        readings_inserted(m, l3, rs, n - 1).insert(l3.push(rs[n - 1].0), rs[n - 1].1)
    }
}

impl Metrics {
    /// Set every resource gauge of one live process: CPU, memory, memory
    /// percentage, start time, up time, open files, the open-file limit and
    /// the count of each TCP connection state.
    pub fn set_process_gauges(&mut self, p: &ProcessInfo, vals: &ProcessGaugeValues)
        requires
            old(self).inv(),
            old(self).active().dom().contains(p.id()),
            old(self).active()[p.id()] == p.process@,
            vals.tcp_counts@.len() == tcp_state_texts().len(),
        ensures
            final(self).inv(),
            final(self).process_metrics.cpu_usage.view_map() == old(
                self,
            ).process_metrics.cpu_usage.view_map().insert(p.label_view(), vals.cpu@),
            final(self).process_metrics.memory_usage.view_map() == old(
                self,
            ).process_metrics.memory_usage.view_map().insert(p.label_view(), vals.memory@),
            final(self).process_metrics.memory_usage_percentage.view_map() == old(
                self,
            ).process_metrics.memory_usage_percentage.view_map().insert(
                p.label_view(),
                vals.memory_pct@,
            ),
            final(self).process_metrics.start_time.view_map() == old(
                self,
            ).process_metrics.start_time.view_map().insert(p.label_view(), vals.start_time@),
            final(self).process_metrics.up_time.view_map() == old(
                self,
            ).process_metrics.up_time.view_map().insert(p.label_view(), vals.up_time@),
            final(self).process_metrics.open_file.view_map() == old(
                self,
            ).process_metrics.open_file.view_map().insert(p.label_view(), vals.open_files@),
            final(self).process_metrics.open_file_limit.view_map() == old(
                self,
            ).process_metrics.open_file_limit.view_map().insert(
                p.label_view(),
                vals.open_files_limit@,
            ),
            final(self).process_metrics.tcp_connection_states.view_map() == tcp_inserted(
                old(self).process_metrics.tcp_connection_states.view_map(),
                p.label_view(),
                vals.tcp_counts@,
                tcp_state_texts().len() as int,
            ),
            final(self).process_metrics.jstat_metrics == old(self).process_metrics.jstat_metrics,
            final(self).system_metrics == old(self).system_metrics,
            final(self).active_pids == old(self).active_pids,
            final(self).jstat_labels == old(self).jstat_labels,
            final(self).commands() == old(self).commands(),
            final(self).process_metrics.cpu_usage.name == old(self).process_metrics.cpu_usage.name,
            final(self).process_metrics.memory_usage.name == old(
                self,
            ).process_metrics.memory_usage.name,
            final(self).process_metrics.memory_usage_percentage.name == old(
                self,
            ).process_metrics.memory_usage_percentage.name,
            final(self).process_metrics.start_time.name == old(
                self,
            ).process_metrics.start_time.name,
            final(self).process_metrics.up_time.name == old(self).process_metrics.up_time.name,
            final(self).process_metrics.open_file.name == old(self).process_metrics.open_file.name,
            final(self).process_metrics.open_file_limit.name == old(
                self,
            ).process_metrics.open_file_limit.name,
            final(self).process_metrics.tcp_connection_states.name == old(
                self,
            ).process_metrics.tcp_connection_states.name,
    {
        let ghost act = self.active();
        let ghost l3 = p.label_view();
        proof {
            assert(ident_ok(l3, act));
        }
        let states = tcp_state_names();
        let n = states.len();
        let ghost tcp0 = self.process_metrics.tcp_connection_states.view_map();
        let mut i: usize = 0;
        proof {
            assert(views(states@).len() == states@.len());
        }
        while i < n
            invariant
                old(self).inv(),
                n == states@.len(),
                views(states@) == tcp_state_texts(),
                vals.tcp_counts@.len() == n,
                0 <= i <= n,
                l3 == p.label_view(),
                l3.len() == 3,
                ident_ok(l3, act),
                self.process_metrics.tcp_connection_states.wf(),
                self.process_metrics.tcp_connection_states.arity == 4,
                self.process_metrics.tcp_connection_states.name == old(
                    self,
                ).process_metrics.tcp_connection_states.name,
                self.process_metrics.tcp_connection_states.view_map() == tcp_inserted(
                    tcp0,
                    l3,
                    vals.tcp_counts@,
                    i as int,
                ),
                tcp_fam_ok(tcp0, act),
                tcp_fam_ok(self.process_metrics.tcp_connection_states.view_map(), act),
                self.process_metrics.cpu_usage == old(self).process_metrics.cpu_usage,
                self.process_metrics.memory_usage == old(self).process_metrics.memory_usage,
                self.process_metrics.memory_usage_percentage == old(
                    self,
                ).process_metrics.memory_usage_percentage,
                self.process_metrics.start_time == old(self).process_metrics.start_time,
                self.process_metrics.up_time == old(self).process_metrics.up_time,
                self.process_metrics.open_file == old(self).process_metrics.open_file,
                self.process_metrics.open_file_limit == old(
                    self,
                ).process_metrics.open_file_limit,
                self.process_metrics.jstat_metrics == old(self).process_metrics.jstat_metrics,
                self.system_metrics == old(self).system_metrics,
                self.active_pids == old(self).active_pids,
                self.jstat_labels == old(self).jstat_labels,
            decreases n - i,
        {
            let mut key = p.label_key();
            key.push(states[i].clone());
            let ghost st = tcp_state_texts()[i as int];
            proof {
                assert(states@[i as int]@ == st);
                assert(views(key@) =~~= l3.push(st));
                assert(tcp_state_texts().contains(st));
            }
            let ghost before = self.process_metrics.tcp_connection_states.view_map();
            self.process_metrics.tcp_connection_states.set(key, vals.tcp_counts[i].clone());
            proof {
                assert forall|k2: Seq<Seq<char>>| #[trigger]
                    self.process_metrics.tcp_connection_states.view_map().dom().contains(
                        k2,
                    ) implies ident_ok(k2, act) && tcp_state_texts().contains(k2[3]) by {
                    if k2 != l3.push(st) {
                        assert(before.dom().contains(k2));
                    }
                }
            }
            i += 1;
        }
        self.process_metrics.cpu_usage.set(p.label_key(), vals.cpu.clone());
        self.process_metrics.memory_usage.set(p.label_key(), vals.memory.clone());
        self.process_metrics.memory_usage_percentage.set(p.label_key(), vals.memory_pct.clone());
        self.process_metrics.start_time.set(p.label_key(), vals.start_time.clone());
        self.process_metrics.up_time.set(p.label_key(), vals.up_time.clone());
        self.process_metrics.open_file.set(p.label_key(), vals.open_files.clone());
        self.process_metrics.open_file_limit.set(p.label_key(), vals.open_files_limit.clone());
        proof {
            assert(old(self).ident_families().len() == 7);
            assert(fam_ok(old(self).ident_families()[0], act));
            assert(fam_ok(old(self).ident_families()[1], act));
            assert(fam_ok(old(self).ident_families()[2], act));
            assert(fam_ok(old(self).ident_families()[3], act));
            assert(fam_ok(old(self).ident_families()[4], act));
            assert(fam_ok(old(self).ident_families()[5], act));
            assert(fam_ok(old(self).ident_families()[6], act));
            lemma_fam_ok_insert(
                old(self).process_metrics.cpu_usage.view_map(),
                act,
                l3,
                vals.cpu@,
            );
            lemma_fam_ok_insert(
                old(self).process_metrics.memory_usage.view_map(),
                act,
                l3,
                vals.memory@,
            );
            lemma_fam_ok_insert(
                old(self).process_metrics.memory_usage_percentage.view_map(),
                act,
                l3,
                vals.memory_pct@,
            );
            lemma_fam_ok_insert(
                old(self).process_metrics.start_time.view_map(),
                act,
                l3,
                vals.start_time@,
            );
            lemma_fam_ok_insert(
                old(self).process_metrics.up_time.view_map(),
                act,
                l3,
                vals.up_time@,
            );
            lemma_fam_ok_insert(
                old(self).process_metrics.open_file.view_map(),
                act,
                l3,
                vals.open_files@,
            );
            lemma_fam_ok_insert(
                old(self).process_metrics.open_file_limit.view_map(),
                act,
                l3,
                vals.open_files_limit@,
            );
            assert(old(self).ident_families().len() == 7);
            assert forall|j: int| 0 <= j < self.ident_families().len() implies fam_ok(
                #[trigger] self.ident_families()[j],
                self.active(),
            ) by {
                assert(fam_ok(self.ident_families()[0], act));
                assert(fam_ok(self.ident_families()[1], act));
                assert(fam_ok(self.ident_families()[2], act));
                assert(fam_ok(self.ident_families()[3], act));
                assert(fam_ok(self.ident_families()[4], act));
                assert(fam_ok(self.ident_families()[5], act));
                assert(fam_ok(self.ident_families()[6], act));
            }
        }
    }
}

/// The metric names of a reading sequence.
pub open spec fn reading_names(rv: Seq<(Seq<char>, Seq<char>)>) -> Seq<Seq<char>> {
    rv.map_values(|pr: (Seq<char>, Seq<char>)| pr.0)
}

/// The names recorded under a key, or none.
pub open spec fn prior_names(m: Map<Seq<Seq<char>>, Seq<String>>, k: Seq<Seq<char>>) -> Seq<
    Seq<char>,
> {
    if m.dom().contains(k) {
        views(m[k])
    } else {
        Seq::empty()
    }
}

/// Which keys `readings_inserted` adds.
proof fn lemma_readings_inserted_dom(
    m: Map<Seq<Seq<char>>, Seq<char>>,
    l3: Seq<Seq<char>>,
    rs: Seq<(Seq<char>, Seq<char>)>,
    n: int,
    k: Seq<Seq<char>>,
)
    requires
        n <= rs.len(),
    ensures
        readings_inserted(m, l3, rs, n).dom().contains(k) <==> (m.dom().contains(k) || exists|i: int|
            0 <= i < n && l3.push((#[trigger] rs[i]).0) == k),
    decreases n,
{
    if n > 0 {
        lemma_readings_inserted_dom(m, l3, rs, n - 1, k);
        if l3.push(rs[n - 1].0) == k {
        } else if exists|i: int| 0 <= i < n && l3.push((#[trigger] rs[i]).0) == k {
            let i = choose|i: int| 0 <= i < n && l3.push((#[trigger] rs[i]).0) == k;
            if i < n - 1 {
                assert(exists|i2: int| 0 <= i2 < n - 1 && l3.push((#[trigger] rs[i2]).0) == k);
            }
        }
    }
}

impl Metrics {
    /// Record one diagnostic sample: write every reading into the command's
    /// gauge family and extend the label index entry of this identity and
    /// command with the metric names that were written.
    pub fn record_jstat(&mut self, cmd_idx: usize, p: &ProcessInfo, readings: &Vec<Reading>)
        requires
            old(self).inv(),
            cmd_idx < old(self).process_metrics.jstat_metrics@.len(),
            old(self).active().dom().contains(p.id()),
            old(self).active()[p.id()] == p.process@,
        ensures
            final(self).inv(),
            final(self).process_metrics.jstat_metrics@.len() == old(
                self,
            ).process_metrics.jstat_metrics@.len(),
            forall|j: int|
                0 <= j < old(self).process_metrics.jstat_metrics@.len() && j != cmd_idx
                    ==> #[trigger] final(self).process_metrics.jstat_metrics@[j] == old(
                    self,
                ).process_metrics.jstat_metrics@[j],
            final(self).process_metrics.jstat_metrics@[cmd_idx as int].command == old(
                self,
            ).process_metrics.jstat_metrics@[cmd_idx as int].command,
            final(self).process_metrics.jstat_metrics@[cmd_idx as int].family.name == old(
                self,
            ).process_metrics.jstat_metrics@[cmd_idx as int].family.name,
            final(self).process_metrics.jstat_metrics@[cmd_idx as int].family.view_map()
                == readings_inserted(
                old(self).process_metrics.jstat_metrics@[cmd_idx as int].family.view_map(),
                p.label_view(),
                crate::parse::reading_views(readings@),
                readings@.len() as int,
            ),
            final(self).index().dom() == old(self).index().dom().insert(
                seq![
                    old(self).process_metrics.jstat_metrics@[cmd_idx as int].command@,
                    p.container@,
                    p.pid@,
                    p.process@,
                ],
            ),
            views(
                final(self).index()[
                    seq![
                        old(self).process_metrics.jstat_metrics@[cmd_idx as int].command@,
                        p.container@,
                        p.pid@,
                        p.process@,
                    ]
                ],
            ) == prior_names(
                old(self).index(),
                seq![
                    old(self).process_metrics.jstat_metrics@[cmd_idx as int].command@,
                    p.container@,
                    p.pid@,
                    p.process@,
                ],
            ) + reading_names(crate::parse::reading_views(readings@)),
            forall|k: Seq<Seq<char>>|
                old(self).index().dom().contains(k) && k != seq![
                    old(self).process_metrics.jstat_metrics@[cmd_idx as int].command@,
                    p.container@,
                    p.pid@,
                    p.process@,
                ] ==> #[trigger] final(self).index()[k] == old(self).index()[k],
            final(self).process_metrics.cpu_usage == old(self).process_metrics.cpu_usage,
            final(self).process_metrics.memory_usage == old(self).process_metrics.memory_usage,
            final(self).process_metrics.memory_usage_percentage == old(
                self,
            ).process_metrics.memory_usage_percentage,
            final(self).process_metrics.start_time == old(self).process_metrics.start_time,
            final(self).process_metrics.up_time == old(self).process_metrics.up_time,
            final(self).process_metrics.open_file == old(self).process_metrics.open_file,
            final(self).process_metrics.open_file_limit == old(
                self,
            ).process_metrics.open_file_limit,
            final(self).process_metrics.tcp_connection_states == old(
                self,
            ).process_metrics.tcp_connection_states,
            final(self).system_metrics == old(self).system_metrics,
            final(self).active_pids == old(self).active_pids,
            final(self).commands() == old(self).commands(),
    {
        let ghost l3 = p.label_view();
        let ghost act = self.active();
        let ghost rv = crate::parse::reading_views(readings@);
        let ghost cmdv = self.process_metrics.jstat_metrics@[cmd_idx as int].command@;
        let ghost k4 = seq![cmdv, p.container@, p.pid@, p.process@];
        proof {
            assert(rv.len() == readings@.len());
        }
        // the index key of this identity and command
        let mut key4: Vec<String> = Vec::new();
        key4.push(self.process_metrics.jstat_metrics[cmd_idx].command.clone());
        key4.push(p.container.clone());
        key4.push(p.pid.clone());
        key4.push(p.process.clone());
        proof {
            assert(views(key4@) =~~= k4);
        }
        // the recorded names: what was there before plus the new ones
        let mut names: Vec<String> = Vec::new();
        let prior = self.jstat_labels.get(&key4);
        match prior {
            Some(old_names) => {
                let m = old_names.len();
                let mut i: usize = 0;
                while i < m
                    invariant
                        m == old_names@.len(),
                        0 <= i <= m,
                        views(names@) == views(old_names@).take(i as int),
                    decreases m - i,
                {
                    let nm = old_names[i].clone();
                    proof {
                        crate::text::lemma_views_push(names@, nm);
                    }
                    names.push(nm);
                    proof {
                        assert(views(names@) =~~= views(old_names@).take(i + 1));
                    }
                    i += 1;
                }
                proof {
                    assert(views(old_names@).take(m as int) =~= views(old_names@));
                }
            },
            None => {},
        }
        let ghost prior_v = prior_names(self.index(), k4);
        proof {
            assert(views(names@) == prior_v);
        }
        let rn = readings.len();
        let mut i: usize = 0;
        while i < rn
            invariant
                rn == readings@.len(),
                rv == crate::parse::reading_views(readings@),
                rv.len() == rn,
                0 <= i <= rn,
                views(names@) == prior_v + reading_names(rv).take(i as int),
            decreases rn - i,
        {
            proof {
                assert(crate::parse::reading_views(readings@)[i as int]
                    == crate::parse::reading_view(readings@[i as int]));
                assert(reading_names(rv)[i as int] == rv[i as int].0);
            }
            let nm = readings[i].name.clone();
            proof {
                crate::text::lemma_views_push(names@, nm);
            }
            names.push(nm);
            proof {
                assert(views(names@) =~~= prior_v + reading_names(rv).take(i + 1));
            }
            i += 1;
        }
        proof {
            assert(reading_names(rv).take(rn as int) =~= reading_names(rv));
        }
        self.jstat_labels.set(key4, names);
        // write the readings into the command's family
        let mut jf = self.process_metrics.jstat_metrics.remove(cmd_idx);
        let ghost m0 = jf.family.view_map();
        let mut i: usize = 0;
        while i < rn
            invariant
                rn == readings@.len(),
                rv == crate::parse::reading_views(readings@),
                rv.len() == rn,
                0 <= i <= rn,
                l3 == p.label_view(),
                l3.len() == 3,
                jf.family.wf(),
                jf.family.arity == 4,
                jf.family.name == old(self).process_metrics.jstat_metrics@[
                    cmd_idx as int
                ].family.name,
                jf.command == old(self).process_metrics.jstat_metrics@[cmd_idx as int].command,
                jf.family.view_map() == readings_inserted(m0, l3, rv, i as int),
            decreases rn - i,
        {
            proof {
                assert(crate::parse::reading_views(readings@)[i as int]
                    == crate::parse::reading_view(readings@[i as int]));
            }
            let mut key = p.label_key();
            key.push(readings[i].name.clone());
            proof {
                assert(views(key@) =~~= l3.push(rv[i as int].0));
            }
            jf.family.set(key, readings[i].value.clone());
            i += 1;
        }
        self.process_metrics.jstat_metrics.insert(cmd_idx, jf);
        proof {
            assert(self.process_metrics.jstat_metrics@ =~= old(
                self,
            ).process_metrics.jstat_metrics@.update(
                cmd_idx as int,
                self.process_metrics.jstat_metrics@[cmd_idx as int],
            ));
            assert(self.commands() =~~= old(self).commands());
            assert(self.index().dom() =~= old(self).index().dom().insert(k4));
            // the registry invariant holds again
            assert(self.ident_families() =~~= old(self).ident_families());
            assert(self.active() == old(self).active());
            assert forall|j: int| 0 <= j < self.ident_families().len() implies fam_ok(
                #[trigger] self.ident_families()[j],
                self.active(),
            ) by {
                assert(fam_ok(old(self).ident_families()[j], old(self).active()));
            }
            assert forall|j: int| 0 <= j < self.process_metrics.jstat_metrics@.len() implies
                jstat_fam_ok(
                (#[trigger] self.process_metrics.jstat_metrics@[j]).family.view_map(),
                self.process_metrics.jstat_metrics@[j].command@,
                self.active(),
                self.index(),
            ) by {
                let fam = self.process_metrics.jstat_metrics@[j].family.view_map();
                let cmdj = self.process_metrics.jstat_metrics@[j].command@;
                let oldfam = old(self).process_metrics.jstat_metrics@[j].family.view_map();
                assert(jstat_fam_ok(oldfam, cmdj, act, old(self).index()));
                assert forall|k: Seq<Seq<char>>| #[trigger] fam.dom().contains(k) implies ident_ok(
                    k,
                    self.active(),
                ) && self.index().dom().contains(seq![cmdj, k[0], k[1], k[2]]) && name_recorded(
                    self.index()[seq![cmdj, k[0], k[1], k[2]]],
                    k[3],
                ) by {
                    if j == cmd_idx {
                        lemma_readings_inserted_dom(m0, l3, rv, rn as int, k);
                    }
                    if oldfam.dom().contains(k) {
                        let ok4 = seq![cmdj, k[0], k[1], k[2]];
                        assert(name_recorded(old(self).index()[ok4], k[3]));
                        if ok4 == k4 {
                            let w = choose|w: int|
                                0 <= w < old(self).index()[ok4].len() && #[trigger] old(
                                    self,
                                ).index()[ok4][w]@ == k[3];
                            assert(views(self.index()[k4])[w] == views(old(self).index()[ok4])[w]);
                            assert(self.index()[k4][w]@ == k[3]);
                        } else {
                            assert(self.index()[ok4] == old(self).index()[ok4]);
                        }
                    } else {
                        // a key added by this sample
                        assert(j == cmd_idx);
                        let w = choose|w: int| 0 <= w < rn && l3.push((#[trigger] rv[w]).0) == k;
                        assert(k[0] == l3[0] && k[1] == l3[1] && k[2] == l3[2] && k[3] == rv[w].0);
                        assert(ident_ok(k, self.active()));
                        assert(seq![cmdj, k[0], k[1], k[2]] =~~= k4);
                        let pos = prior_v.len() + w;
                        assert(views(self.index()[k4])[pos] == reading_names(rv)[w]);
                        assert(self.index()[k4][pos]@ == k[3]);
                    }
                }
            }
            assert forall|k: Seq<Seq<char>>| #[trigger] self.index().dom().contains(k) implies k.len()
                == 4 && self.active().dom().contains(seq![k[1], k[2]]) && self.active()[
                seq![k[1], k[2]]
            ] == k[3] && self.commands().contains(k[0]) by {
                if k == k4 {
                    assert(old(self).commands()[cmd_idx as int] == cmdv);
                    assert(self.commands().contains(cmdv));
                } else {
                    assert(old(self).index().dom().contains(k));
                    assert(index_ok(old(self).index(), act, old(self).commands()));
                }
            }
        }
    }
}

/// One identity being evicted: its context, pid and recorded process name.
struct Evicted {
    container: String,
    pid: String,
    process: String,
}

/// The identity key of an evicted entry.
spec fn rid(r: Evicted) -> Seq<Seq<char>> {
    seq![r.container@, r.pid@]
}

/// The label triple of an evicted entry.
spec fn rl3(r: Evicted) -> Seq<Seq<char>> {
    seq![r.container@, r.pid@, r.process@]
}

/// Whether a label combination belongs to the evicted identity.
spec fn prefix_match(r: Evicted, k: Seq<Seq<char>>) -> bool {
    k.len() >= 3 && k[0] == r.container@ && k[1] == r.pid@ && k[2] == r.process@
}

/// The label-index key of one command and one evicted identity.
spec fn key4v(cmd: Seq<char>, r: Evicted) -> Seq<Seq<char>> {
    seq![cmd, r.container@, r.pid@, r.process@]
}

/// `m` with the series of identities missing from `cur` dropped: the series
/// that survive a reconciliation against the discovery outcome `cur`.
pub open spec fn live_restrict<V>(
    m: Map<Seq<Seq<char>>, V>,
    cur: Map<Seq<Seq<char>>, Seq<char>>,
) -> Map<Seq<Seq<char>>, V> {
    Map::new(
        |k: Seq<Seq<char>>|
            m.dom().contains(k) && k.len() >= 3 && cur.dom().contains(seq![k[0], k[1]]),
        |k: Seq<Seq<char>>| m[k],
    )
}

/// The label-index entries that survive a reconciliation: those whose
/// identity, at positions one and two of the key, is still discovered.
pub open spec fn live_restrict_index<V>(
    m: Map<Seq<Seq<char>>, V>,
    cur: Map<Seq<Seq<char>>, Seq<char>>,
) -> Map<Seq<Seq<char>>, V> {
    Map::new(
        |k: Seq<Seq<char>>|
            m.dom().contains(k) && k.len() >= 4 && cur.dom().contains(seq![k[1], k[2]]),
        |k: Seq<Seq<char>>| m[k],
    )
}

/// `m0` with the label triples of the first `n` evicted identities removed.
spec fn pruned(
    m0: Map<Seq<Seq<char>>, Seq<char>>,
    rs: Seq<Evicted>,
    n: int,
) -> Map<Seq<Seq<char>>, Seq<char>> {
    Map::new(
        |k: Seq<Seq<char>>|
            m0.dom().contains(k) && !(exists|j: int| 0 <= j < n && rl3(#[trigger] rs[j]) == k),
        |k: Seq<Seq<char>>| m0[k],
    )
}

/// `m0` with every series of the first `n` evicted identities removed.
spec fn pruned_by_prefix(
    m0: Map<Seq<Seq<char>>, Seq<char>>,
    rs: Seq<Evicted>,
    n: int,
) -> Map<Seq<Seq<char>>, Seq<char>> {
    Map::new(
        |k: Seq<Seq<char>>|
            m0.dom().contains(k) && !(exists|j: int|
                0 <= j < n && prefix_match(#[trigger] rs[j], k)),
        |k: Seq<Seq<char>>| m0[k],
    )
}

/// `m` with the first `s` TCP-state series of one identity removed.
spec fn pruned_states(
    m: Map<Seq<Seq<char>>, Seq<char>>,
    l3: Seq<Seq<char>>,
    s: int,
) -> Map<Seq<Seq<char>>, Seq<char>> {
    Map::new(
        |k: Seq<Seq<char>>|
            m.dom().contains(k) && !(exists|t: int|
                0 <= t < s && k == l3.push(#[trigger] tcp_state_texts()[t])),
        |k: Seq<Seq<char>>| m[k],
    )
}

/// `m` with the first `s` recorded metric-name series of one identity
/// removed.
spec fn pruned_names(
    m: Map<Seq<Seq<char>>, Seq<char>>,
    l3: Seq<Seq<char>>,
    ns: Seq<String>,
    s: int,
) -> Map<Seq<Seq<char>>, Seq<char>> {
    Map::new(
        |k: Seq<Seq<char>>|
            m.dom().contains(k) && !(exists|t: int|
                0 <= t < s && k == l3.push((#[trigger] ns[t])@)),
        |k: Seq<Seq<char>>| m[k],
    )
}

/// Which label-index keys the first `d` commands (and, within command `d`,
/// the first `i` evicted identities) have already dropped.
spec fn idx_processed(
    k: Seq<Seq<char>>,
    cmds: Seq<Seq<char>>,
    rs: Seq<Evicted>,
    d: int,
    i: int,
) -> bool {
    exists|e: int, j: int|
        0 <= e < cmds.len() && 0 <= j < rs.len() && (e < d || (e == d && j < i)) && k == key4v(
            #[trigger] cmds[e],
            #[trigger] rs[j],
        )
}

/// The label index with the processed keys dropped.
spec fn pruned_index(
    m0: Map<Seq<Seq<char>>, Seq<String>>,
    cmds: Seq<Seq<char>>,
    rs: Seq<Evicted>,
    d: int,
    i: int,
) -> Map<Seq<Seq<char>>, Seq<String>> {
    Map::new(
        |k: Seq<Seq<char>>| m0.dom().contains(k) && !idx_processed(k, cmds, rs, d, i),
        |k: Seq<Seq<char>>| m0[k],
    )
}

/// The collected evictions are sound (each was active and is no longer
/// discovered) and complete (every such identity was collected).
spec fn evictions_exact(
    rs: Seq<Evicted>,
    act0: Map<Seq<Seq<char>>, Seq<char>>,
    cur: Map<Seq<Seq<char>>, Seq<char>>,
) -> bool {
    &&& forall|w: int|
        0 <= w < rs.len() ==> act0.dom().contains(rid(#[trigger] rs[w])) && act0[rid(rs[w])]
            == rs[w].process@ && !cur.dom().contains(rid(rs[w]))
    &&& forall|k: Seq<Seq<char>>|
        act0.dom().contains(k) && !cur.dom().contains(k) ==> exists|w: int|
            0 <= w < rs.len() && rid(#[trigger] rs[w]) == k
}

/// Pruning a family by the exact evictions leaves the live restriction.
#[verifier::rlimit(50)]
proof fn lemma_pruned_is_restrict(
    m0: Map<Seq<Seq<char>>, Seq<char>>,
    act0: Map<Seq<Seq<char>>, Seq<char>>,
    cur: Map<Seq<Seq<char>>, Seq<char>>,
    rs: Seq<Evicted>,
    by_prefix: bool,
)
    requires
        fam_ok(m0, act0),
        forall|k: Seq<Seq<char>>| #[trigger] m0.dom().contains(k) ==> k.len() >= 3,
        evictions_exact(rs, act0, cur),
    ensures
        !by_prefix ==> (forall|k: Seq<Seq<char>>| #[trigger]
            m0.dom().contains(k) ==> k.len() == 3) ==> pruned(m0, rs, rs.len() as int)
            == live_restrict(m0, cur),
        by_prefix ==> pruned_by_prefix(m0, rs, rs.len() as int) == live_restrict(m0, cur),
{
    let n = rs.len() as int;
    if by_prefix {
        assert forall|k: Seq<Seq<char>>|
            pruned_by_prefix(m0, rs, n).dom().contains(k) == live_restrict(
                m0,
                cur,
            ).dom().contains(k) by {
            if m0.dom().contains(k) {
                assert(ident_ok(k, act0));
                if cur.dom().contains(seq![k[0], k[1]]) {
                    if exists|j: int| 0 <= j < n && prefix_match(#[trigger] rs[j], k) {
                        let j = choose|j: int| 0 <= j < n && prefix_match(#[trigger] rs[j], k);
                        assert(rid(rs[j]) =~~= seq![k[0], k[1]]);
                        assert(false);
                    }
                } else {
                    let w = choose|w: int|
                        0 <= w < rs.len() && rid(#[trigger] rs[w]) == seq![k[0], k[1]];
                    assert(rid(rs[w])[0] == k[0] && rid(rs[w])[1] == k[1]);
                    assert(rs[w].process@ == act0[seq![k[0], k[1]]]);
                    assert(prefix_match(rs[w], k));
                }
            }
        }
        assert(pruned_by_prefix(m0, rs, n) =~= live_restrict(m0, cur));
    } else {
        if forall|k: Seq<Seq<char>>| #[trigger] m0.dom().contains(k) ==> k.len() == 3 {
            assert forall|k: Seq<Seq<char>>|
                pruned(m0, rs, n).dom().contains(k) == live_restrict(m0, cur).dom().contains(
                    k,
                ) by {
                if m0.dom().contains(k) {
                    assert(ident_ok(k, act0));
                    if cur.dom().contains(seq![k[0], k[1]]) {
                        if exists|j: int| 0 <= j < n && rl3(#[trigger] rs[j]) == k {
                            let j = choose|j: int| 0 <= j < n && rl3(#[trigger] rs[j]) == k;
                            assert(rid(rs[j]) =~~= seq![k[0], k[1]]);
                            assert(false);
                        }
                    } else {
                        let w = choose|w: int|
                            0 <= w < rs.len() && rid(#[trigger] rs[w]) == seq![k[0], k[1]];
                        assert(rid(rs[w])[0] == k[0] && rid(rs[w])[1] == k[1]);
                        assert(rs[w].process@ == act0[seq![k[0], k[1]]]);
                        assert(rl3(rs[w]) =~~= k);
                    }
                }
            }
            assert forall|k: Seq<Seq<char>>| #[trigger]
                pruned(m0, rs, n).dom().contains(k) implies pruned(m0, rs, n)[k] == live_restrict(
                m0,
                cur,
            )[k] by {
                assert(live_restrict(m0, cur).dom().contains(k));
            }
            assert(pruned(m0, rs, n) =~= live_restrict(m0, cur));
        }
    }
}

/// The label triple of an evicted identity as a label vector.
fn evict_label3(r: &Evicted) -> (out: Vec<String>)
    ensures
        views(out@) == rl3(*r),
{
    let mut out: Vec<String> = Vec::new();
    out.push(r.container.clone());
    out.push(r.pid.clone());
    out.push(r.process.clone());
    proof {
        assert(views(out@) =~~= rl3(*r));
    }
    out
}

impl Metrics {
    /// Reconcile the registry against one discovery outcome: every identity
    /// that was active but is no longer discovered has all its series — the
    /// resource gauges, the TCP-state series, and exactly the diagnostic
    /// metric names the label index recorded — removed, together with its
    /// index entries; then the discovery outcome replaces the active set.
    /// Identities that persist must keep their recorded process name.
    #[verifier::rlimit(100)]
    pub fn reconcile(&mut self, current: StrMap<String>)
        requires
            old(self).inv(),
            current.wf(),
            forall|k: Seq<Seq<char>>| #[trigger]
                current.map_view().dom().contains(k) ==> k.len() == 2,
            forall|k: Seq<Seq<char>>|
                old(self).active().dom().contains(k) && #[trigger] current.map_view().dom().contains(
                    k,
                ) ==> current.map_view()[k] == old(self).active()[k],
        ensures
            final(self).inv(),
            reconciled(*old(self), current.map_view(), *final(self)),
            final(self).active() == current.map_view(),
            final(self).index() == live_restrict_index(old(self).index(), current.map_view()),
            final(self).process_metrics.cpu_usage.view_map() == live_restrict(
                old(self).process_metrics.cpu_usage.view_map(),
                current.map_view(),
            ),
            final(self).process_metrics.memory_usage.view_map() == live_restrict(
                old(self).process_metrics.memory_usage.view_map(),
                current.map_view(),
            ),
            final(self).process_metrics.memory_usage_percentage.view_map() == live_restrict(
                old(self).process_metrics.memory_usage_percentage.view_map(),
                current.map_view(),
            ),
            final(self).process_metrics.start_time.view_map() == live_restrict(
                old(self).process_metrics.start_time.view_map(),
                current.map_view(),
            ),
            final(self).process_metrics.up_time.view_map() == live_restrict(
                old(self).process_metrics.up_time.view_map(),
                current.map_view(),
            ),
            final(self).process_metrics.open_file.view_map() == live_restrict(
                old(self).process_metrics.open_file.view_map(),
                current.map_view(),
            ),
            final(self).process_metrics.open_file_limit.view_map() == live_restrict(
                old(self).process_metrics.open_file_limit.view_map(),
                current.map_view(),
            ),
            final(self).process_metrics.tcp_connection_states.view_map() == live_restrict(
                old(self).process_metrics.tcp_connection_states.view_map(),
                current.map_view(),
            ),
            final(self).process_metrics.jstat_metrics@.len() == old(
                self,
            ).process_metrics.jstat_metrics@.len(),
            forall|j: int|
                0 <= j < old(self).process_metrics.jstat_metrics@.len()
                    ==> (#[trigger] old(self).process_metrics.jstat_metrics@[j]).command
                    == final(self).process_metrics.jstat_metrics@[j].command
                    && final(self).process_metrics.jstat_metrics@[j].family.name
                    == old(self).process_metrics.jstat_metrics@[j].family.name
                    && final(self).process_metrics.jstat_metrics@[j].family.view_map()
                    == live_restrict(
                    old(self).process_metrics.jstat_metrics@[j].family.view_map(),
                    current.map_view(),
                ),
            final(self).system_metrics == old(self).system_metrics,
            final(self).commands() == old(self).commands(),
            final(self).process_metrics.cpu_usage.name == old(self).process_metrics.cpu_usage.name,
            final(self).process_metrics.memory_usage.name == old(
                self,
            ).process_metrics.memory_usage.name,
            final(self).process_metrics.memory_usage_percentage.name == old(
                self,
            ).process_metrics.memory_usage_percentage.name,
            final(self).process_metrics.start_time.name == old(
                self,
            ).process_metrics.start_time.name,
            final(self).process_metrics.up_time.name == old(self).process_metrics.up_time.name,
            final(self).process_metrics.open_file.name == old(self).process_metrics.open_file.name,
            final(self).process_metrics.open_file_limit.name == old(
                self,
            ).process_metrics.open_file_limit.name,
            final(self).process_metrics.tcp_connection_states.name == old(
                self,
            ).process_metrics.tcp_connection_states.name,
    {
        let ghost act0 = self.active();
        let ghost cur = current.map_view();
        let ghost idx0 = self.index();
        let ghost jold = self.process_metrics.jstat_metrics@;
        let ghost m0_cpu = self.process_metrics.cpu_usage.view_map();
        let ghost m0_mem = self.process_metrics.memory_usage.view_map();
        let ghost m0_pct = self.process_metrics.memory_usage_percentage.view_map();
        let ghost m0_start = self.process_metrics.start_time.view_map();
        let ghost m0_up = self.process_metrics.up_time.view_map();
        let ghost m0_of = self.process_metrics.open_file.view_map();
        let ghost m0_ofl = self.process_metrics.open_file_limit.view_map();
        let ghost m0_tcp = self.process_metrics.tcp_connection_states.view_map();

        // collect the identities to evict
        let mut removed: Vec<Evicted> = Vec::new();
        let na = self.active_pids.entries.len();
        let mut i: usize = 0;
        while i < na
            invariant
                *self == *old(self),
                act0 == self.active(),
                cur == current.map_view(),
                old(self).inv(),
                na == self.active_pids.entries@.len(),
                0 <= i <= na,
                forall|w: int|
                    0 <= w < removed@.len() ==> act0.dom().contains(rid(#[trigger] removed@[w]))
                        && act0[rid(removed@[w])] == removed@[w].process@ && !cur.dom().contains(
                        rid(removed@[w]),
                    ),
                forall|j: int|
                    0 <= j < i && !cur.dom().contains(
                        crate::kv::entry_key(#[trigger] self.active_pids.entries@[j]),
                    ) ==> exists|w: int|
                        0 <= w < removed@.len() && rid(#[trigger] removed@[w])
                            == crate::kv::entry_key(self.active_pids.entries@[j]),
            decreases na - i,
        {
            proof {
                crate::kv::lemma_entries_map_index(self.active_pids.entries@, i as int);
                assert(crate::kv::entry_key(self.active_pids.entries@[i as int]).len() == 2);
                assert(views(self.active_pids.entries@[i as int].key@).len()
                    == self.active_pids.entries@[i as int].key@.len());
            }
            let in_cur = current.contains(&self.active_pids.entries[i].key);
            if !in_cur {
                let ev = Evicted {
                    container: self.active_pids.entries[i].key[0].clone(),
                    pid: self.active_pids.entries[i].key[1].clone(),
                    process: self.active_pids.entries[i].val.clone(),
                };
                proof {
                    assert(rid(ev) =~~= crate::kv::entry_key(
                        self.active_pids.entries@[i as int],
                    ));
                }
                let ghost removed0 = removed@;
                removed.push(ev);
                proof {
                    assert forall|j: int|
                        0 <= j < i + 1 && !cur.dom().contains(
                            crate::kv::entry_key(#[trigger] self.active_pids.entries@[j]),
                        ) implies exists|w: int|
                        0 <= w < removed@.len() && rid(#[trigger] removed@[w])
                            == crate::kv::entry_key(self.active_pids.entries@[j]) by {
                        if j < i {
                            let w = choose|w: int|
                                0 <= w < removed0.len() && rid(#[trigger] removed0[w])
                                    == crate::kv::entry_key(self.active_pids.entries@[j]);
                            assert(removed@[w] == removed0[w]);
                        } else {
                            assert(removed@[removed@.len() - 1] == ev);
                        }
                    }
                }
            }
            i += 1;
        }
        proof {
            assert forall|k: Seq<Seq<char>>|
                act0.dom().contains(k) && !cur.dom().contains(k) implies exists|w: int|
                0 <= w < removed@.len() && rid(#[trigger] removed@[w]) == k by {
                crate::kv::lemma_entries_map_contains(self.active_pids.entries@, k);
                let j = choose|j: int|
                    0 <= j < self.active_pids.entries@.len() && crate::kv::entry_key(
                        #[trigger] self.active_pids.entries@[j],
                    ) == k;
            }
            assert(evictions_exact(removed@, act0, cur));
        }

        // evict the resource and TCP series of each removed identity
        let states = tcp_state_names();
        let nr = removed.len();
        let mut i: usize = 0;
        proof {
            assert(self.process_metrics.cpu_usage.view_map() =~= pruned(m0_cpu, removed@, 0));
            assert(self.process_metrics.memory_usage.view_map() =~= pruned(m0_mem, removed@, 0));
            assert(self.process_metrics.memory_usage_percentage.view_map() =~= pruned(
                m0_pct,
                removed@,
                0,
            ));
            assert(self.process_metrics.start_time.view_map() =~= pruned(m0_start, removed@, 0));
            assert(self.process_metrics.up_time.view_map() =~= pruned(m0_up, removed@, 0));
            assert(self.process_metrics.open_file.view_map() =~= pruned(m0_of, removed@, 0));
            assert(self.process_metrics.open_file_limit.view_map() =~= pruned(
                m0_ofl,
                removed@,
                0,
            ));
            assert(self.process_metrics.tcp_connection_states.view_map() =~= pruned_by_prefix(
                m0_tcp,
                removed@,
                0,
            ));
        }
        while i < nr
            invariant
                old(self).inv(),
                act0 == old(self).active(),
                cur == current.map_view(),
                m0_cpu == old(self).process_metrics.cpu_usage.view_map(),
                m0_mem == old(self).process_metrics.memory_usage.view_map(),
                m0_pct == old(self).process_metrics.memory_usage_percentage.view_map(),
                m0_start == old(self).process_metrics.start_time.view_map(),
                m0_up == old(self).process_metrics.up_time.view_map(),
                m0_of == old(self).process_metrics.open_file.view_map(),
                m0_ofl == old(self).process_metrics.open_file_limit.view_map(),
                m0_tcp == old(self).process_metrics.tcp_connection_states.view_map(),
                nr == removed@.len(),
                0 <= i <= nr,
                views(states@) == tcp_state_texts(),
                evictions_exact(removed@, act0, cur),
                self.process_metrics.cpu_usage.wf(),
                self.process_metrics.cpu_usage.arity == 3,
                self.process_metrics.cpu_usage.name == old(self).process_metrics.cpu_usage.name,
                self.process_metrics.cpu_usage.view_map() == pruned(m0_cpu, removed@, i as int),
                self.process_metrics.memory_usage.wf(),
                self.process_metrics.memory_usage.arity == 3,
                self.process_metrics.memory_usage.name == old(
                    self,
                ).process_metrics.memory_usage.name,
                self.process_metrics.memory_usage.view_map() == pruned(
                    m0_mem,
                    removed@,
                    i as int,
                ),
                self.process_metrics.memory_usage_percentage.wf(),
                self.process_metrics.memory_usage_percentage.arity == 3,
                self.process_metrics.memory_usage_percentage.name == old(
                    self,
                ).process_metrics.memory_usage_percentage.name,
                self.process_metrics.memory_usage_percentage.view_map() == pruned(
                    m0_pct,
                    removed@,
                    i as int,
                ),
                self.process_metrics.start_time.wf(),
                self.process_metrics.start_time.arity == 3,
                self.process_metrics.start_time.name == old(self).process_metrics.start_time.name,
                self.process_metrics.start_time.view_map() == pruned(
                    m0_start,
                    removed@,
                    i as int,
                ),
                self.process_metrics.up_time.wf(),
                self.process_metrics.up_time.arity == 3,
                self.process_metrics.up_time.name == old(self).process_metrics.up_time.name,
                self.process_metrics.up_time.view_map() == pruned(m0_up, removed@, i as int),
                self.process_metrics.open_file.wf(),
                self.process_metrics.open_file.arity == 3,
                self.process_metrics.open_file.name == old(self).process_metrics.open_file.name,
                self.process_metrics.open_file.view_map() == pruned(m0_of, removed@, i as int),
                self.process_metrics.open_file_limit.wf(),
                self.process_metrics.open_file_limit.arity == 3,
                self.process_metrics.open_file_limit.name == old(
                    self,
                ).process_metrics.open_file_limit.name,
                self.process_metrics.open_file_limit.view_map() == pruned(
                    m0_ofl,
                    removed@,
                    i as int,
                ),
                self.process_metrics.tcp_connection_states.wf(),
                self.process_metrics.tcp_connection_states.arity == 4,
                self.process_metrics.tcp_connection_states.name == old(
                    self,
                ).process_metrics.tcp_connection_states.name,
                self.process_metrics.tcp_connection_states.view_map() == pruned_by_prefix(
                    m0_tcp,
                    removed@,
                    i as int,
                ),
                self.process_metrics.jstat_metrics == old(self).process_metrics.jstat_metrics,
                self.system_metrics == old(self).system_metrics,
                self.active_pids == old(self).active_pids,
                self.jstat_labels == old(self).jstat_labels,
            decreases nr - i,
        {
            let l3key = evict_label3(&removed[i]);
            let ghost l3 = rl3(removed@[i as int]);
            self.process_metrics.cpu_usage.remove(&l3key);
            self.process_metrics.memory_usage.remove(&l3key);
            self.process_metrics.memory_usage_percentage.remove(&l3key);
            self.process_metrics.start_time.remove(&l3key);
            self.process_metrics.up_time.remove(&l3key);
            self.process_metrics.open_file.remove(&l3key);
            self.process_metrics.open_file_limit.remove(&l3key);
            proof {
                assert(self.process_metrics.cpu_usage.view_map() =~= pruned(
                    m0_cpu,
                    removed@,
                    i + 1,
                ));
                assert(self.process_metrics.memory_usage.view_map() =~= pruned(
                    m0_mem,
                    removed@,
                    i + 1,
                ));
                assert(self.process_metrics.memory_usage_percentage.view_map() =~= pruned(
                    m0_pct,
                    removed@,
                    i + 1,
                ));
                assert(self.process_metrics.start_time.view_map() =~= pruned(
                    m0_start,
                    removed@,
                    i + 1,
                ));
                assert(self.process_metrics.up_time.view_map() =~= pruned(
                    m0_up,
                    removed@,
                    i + 1,
                ));
                assert(self.process_metrics.open_file.view_map() =~= pruned(
                    m0_of,
                    removed@,
                    i + 1,
                ));
                assert(self.process_metrics.open_file_limit.view_map() =~= pruned(
                    m0_ofl,
                    removed@,
                    i + 1,
                ));
            }
            // remove the TCP-state series of this identity
            let ghost prev = *self;
            let ghost tcp_enter = self.process_metrics.tcp_connection_states.view_map();
            let ns = states.len();
            let mut s: usize = 0;
            proof {
                assert(self.process_metrics.tcp_connection_states.view_map() =~= pruned_states(
                    tcp_enter,
                    l3,
                    0,
                ));
            }
            while s < ns
                invariant
                    ns == states@.len(),
                    views(states@) == tcp_state_texts(),
                    0 <= s <= ns,
                    0 <= i < nr,
                    nr == removed@.len(),
                    l3 == rl3(removed@[i as int]),
                    self.process_metrics.tcp_connection_states.wf(),
                    self.process_metrics.tcp_connection_states.arity == 4,
                    self.process_metrics.tcp_connection_states.name == old(
                        self,
                    ).process_metrics.tcp_connection_states.name,
                    self.process_metrics.tcp_connection_states.view_map() == pruned_states(
                        tcp_enter,
                        l3,
                        s as int,
                    ),
                    self.process_metrics.cpu_usage == prev.process_metrics.cpu_usage,
                    self.process_metrics.memory_usage == prev.process_metrics.memory_usage,
                    self.process_metrics.memory_usage_percentage
                        == prev.process_metrics.memory_usage_percentage,
                    self.process_metrics.start_time == prev.process_metrics.start_time,
                    self.process_metrics.up_time == prev.process_metrics.up_time,
                    self.process_metrics.open_file == prev.process_metrics.open_file,
                    self.process_metrics.open_file_limit == prev.process_metrics.open_file_limit,
                    self.process_metrics.jstat_metrics == prev.process_metrics.jstat_metrics,
                    self.system_metrics == prev.system_metrics,
                    self.active_pids == prev.active_pids,
                    self.jstat_labels == prev.jstat_labels,
                decreases ns - s,
            {
                let mut skey = evict_label3(&removed[i]);
                skey.push(states[s].clone());
                proof {
                    assert(views(skey@) =~~= l3.push(tcp_state_texts()[s as int]));
                }
                self.process_metrics.tcp_connection_states.remove(&skey);
                proof {
                    assert(self.process_metrics.tcp_connection_states.view_map() =~= pruned_states(
                        tcp_enter,
                        l3,
                        s + 1,
                    ));
                }
                s += 1;
            }
            proof {
                assert forall|k: Seq<Seq<char>>|
                    pruned_states(tcp_enter, l3, ns as int).dom().contains(k)
                        == pruned_by_prefix(m0_tcp, removed@, i + 1).dom().contains(k) by {
                    if m0_tcp.dom().contains(k) {
                        assert(tcp_fam_ok(
                            old(self).process_metrics.tcp_connection_states.view_map(),
                            old(self).active(),
                        ));
                        assert(k.len() == 4 && tcp_state_texts().contains(k[3]));
                        if prefix_match(removed@[i as int], k) {
                            let t = choose|t: int|
                                0 <= t < tcp_state_texts().len() && #[trigger] tcp_state_texts()[t]
                                    == k[3];
                            assert(k =~~= l3.push(tcp_state_texts()[t]));
                        } else {
                            assert forall|t: int|
                                0 <= t < ns implies k != l3.push(
                                #[trigger] tcp_state_texts()[t],
                            ) by {
                                if k == l3.push(tcp_state_texts()[t]) {
                                    assert(k[0] == l3[0] && k[1] == l3[1] && k[2] == l3[2]);
                                    assert(false);
                                }
                            }
                        }
                    }
                }
                assert(self.process_metrics.tcp_connection_states.view_map() =~= pruned_by_prefix(
                    m0_tcp,
                    removed@,
                    i + 1,
                ));
            }
            i += 1;
        }
        proof {
            assert(old(self).ident_families().len() == 7);
            assert(fam_ok(old(self).ident_families()[0], act0));
            assert(fam_ok(old(self).ident_families()[1], act0));
            assert(fam_ok(old(self).ident_families()[2], act0));
            assert(fam_ok(old(self).ident_families()[3], act0));
            assert(fam_ok(old(self).ident_families()[4], act0));
            assert(fam_ok(old(self).ident_families()[5], act0));
            assert(fam_ok(old(self).ident_families()[6], act0));
            lemma_pruned_is_restrict(m0_cpu, act0, cur, removed@, false);
            lemma_pruned_is_restrict(m0_mem, act0, cur, removed@, false);
            lemma_pruned_is_restrict(m0_pct, act0, cur, removed@, false);
            lemma_pruned_is_restrict(m0_start, act0, cur, removed@, false);
            lemma_pruned_is_restrict(m0_up, act0, cur, removed@, false);
            lemma_pruned_is_restrict(m0_of, act0, cur, removed@, false);
            lemma_pruned_is_restrict(m0_ofl, act0, cur, removed@, false);
            assert(fam_ok(m0_tcp, act0)) by {
                assert(tcp_fam_ok(m0_tcp, act0));
                assert forall|k: Seq<Seq<char>>| #[trigger] m0_tcp.dom().contains(k) implies
                    ident_ok(k, act0) by {}
            }
            lemma_pruned_is_restrict(m0_tcp, act0, cur, removed@, true);
        }

        // evict the diagnostic series and index entries of each removed
        // identity, command by command
        let ghost after1 = *self;
        let ghost cmds = self.commands();
        let ncmd = self.process_metrics.jstat_metrics.len();
        let mut newjf: Vec<JstatFamily> = Vec::new();
        let mut d: usize = 0;
        proof {
            assert(self.process_metrics.jstat_metrics@ =~= jold.skip(0));
            assert(self.jstat_labels.map_view() =~= pruned_index(idx0, cmds, removed@, 0, 0));
        }
        while d < ncmd
            invariant
                old(self).inv(),
                act0 == old(self).active(),
                idx0 == old(self).index(),
                cmds == old(self).commands(),
                jold == old(self).process_metrics.jstat_metrics@,
                nr == removed@.len(),
                evictions_exact(removed@, act0, cur),
                ncmd == jold.len(),
                0 <= d <= ncmd,
                self.process_metrics.jstat_metrics@ == jold.skip(d as int),
                newjf@.len() == d,
                forall|e: int|
                    0 <= e < d ==> (#[trigger] newjf@[e]).command == jold[e].command
                        && newjf@[e].family.name == jold[e].family.name && newjf@[e].family.wf()
                        && newjf@[e].family.arity == 4 && newjf@[e].family.view_map()
                        == pruned_by_prefix(jold[e].family.view_map(), removed@, nr as int),
                self.jstat_labels.wf(),
                self.jstat_labels.map_view() == pruned_index(idx0, cmds, removed@, d as int, 0),
                cur == current.map_view(),
                self.process_metrics.cpu_usage == after1.process_metrics.cpu_usage,
                self.process_metrics.memory_usage == after1.process_metrics.memory_usage,
                self.process_metrics.memory_usage_percentage
                    == after1.process_metrics.memory_usage_percentage,
                self.process_metrics.start_time == after1.process_metrics.start_time,
                self.process_metrics.up_time == after1.process_metrics.up_time,
                self.process_metrics.open_file == after1.process_metrics.open_file,
                self.process_metrics.open_file_limit == after1.process_metrics.open_file_limit,
                self.process_metrics.tcp_connection_states
                    == after1.process_metrics.tcp_connection_states,
                self.system_metrics == after1.system_metrics,
                self.active_pids == after1.active_pids,
            decreases ncmd - d,
        {
            let mut jf = self.process_metrics.jstat_metrics.remove(0);
            let ghost jm0 = jf.family.view_map();
            proof {
                assert(jold.skip(d as int)[0] == jold[d as int]);
                assert(jold.skip(d as int).remove(0) =~= jold.skip(d + 1));
                assert(jstat_fam_ok(jm0, jf.command@, act0, idx0));
                assert(cmds[d as int] == jold[d as int].command@);
            }
            let mut i: usize = 0;
            proof {
                assert(jf.family.view_map() =~= pruned_by_prefix(jm0, removed@, 0));
                assert(self.jstat_labels.map_view() =~= pruned_index(
                    idx0,
                    cmds,
                    removed@,
                    d as int,
                    0,
                ));
            }
            while i < nr
                invariant
                    old(self).inv(),
                    act0 == old(self).active(),
                    idx0 == old(self).index(),
                    cmds == old(self).commands(),
                    jold == old(self).process_metrics.jstat_metrics@,
                    nr == removed@.len(),
                    evictions_exact(removed@, act0, cur),
                    ncmd == jold.len(),
                    0 <= d < ncmd,
                    0 <= i <= nr,
                    jf.command == jold[d as int].command,
                    jf.family.name == jold[d as int].family.name,
                    jf.family.wf(),
                    jf.family.arity == 4,
                    jm0 == jold[d as int].family.view_map(),
                    jf.family.view_map() == pruned_by_prefix(jm0, removed@, i as int),
                    self.jstat_labels.wf(),
                    self.jstat_labels.map_view() == pruned_index(
                        idx0,
                        cmds,
                        removed@,
                        d as int,
                        i as int,
                    ),
                    cur == current.map_view(),
                    self.process_metrics.jstat_metrics@ == jold.skip(d + 1),
                    self.process_metrics.cpu_usage == after1.process_metrics.cpu_usage,
                    self.process_metrics.memory_usage == after1.process_metrics.memory_usage,
                    self.process_metrics.memory_usage_percentage
                        == after1.process_metrics.memory_usage_percentage,
                    self.process_metrics.start_time == after1.process_metrics.start_time,
                    self.process_metrics.up_time == after1.process_metrics.up_time,
                    self.process_metrics.open_file == after1.process_metrics.open_file,
                    self.process_metrics.open_file_limit == after1.process_metrics.open_file_limit,
                    self.process_metrics.tcp_connection_states
                        == after1.process_metrics.tcp_connection_states,
                    self.system_metrics == after1.system_metrics,
                    self.active_pids == after1.active_pids,
                decreases nr - i,
            {
                let ghost r = removed@[i as int];
                let ghost l3 = rl3(r);
                let ghost k4 = key4v(cmds[d as int], r);
                let mut key4: Vec<String> = Vec::new();
                key4.push(jf.command.clone());
                key4.push(removed[i].container.clone());
                key4.push(removed[i].pid.clone());
                key4.push(removed[i].process.clone());
                proof {
                    assert(views(key4@) =~~= k4);
                }
                let ghost jenter = jf.family.view_map();
                match self.jstat_labels.get(&key4) {
                    Some(names) => {
                        proof {
                            assert(self.jstat_labels.map_view()[k4] == idx0[k4]);
                            assert(names@ == idx0[k4]);
                        }
                        let nn = names.len();
                        let mut t: usize = 0;
                        proof {
                            assert(jf.family.view_map() =~= pruned_names(jenter, l3, names@, 0));
                        }
                        while t < nn
                            invariant
                                nn == names@.len(),
                                0 <= t <= nn,
                                0 <= i < nr,
                                nr == removed@.len(),
                                r == removed@[i as int],
                                l3 == rl3(r),
                                jf.command == jold[d as int].command,
                                jf.family.name == jold[d as int].family.name,
                                jf.family.wf(),
                                jf.family.arity == 4,
                                jf.family.view_map() == pruned_names(jenter, l3, names@, t as int),
                            decreases nn - t,
                        {
                            let mut nk: Vec<String> = Vec::new();
                            nk.push(removed[i].container.clone());
                            nk.push(removed[i].pid.clone());
                            nk.push(removed[i].process.clone());
                            nk.push(names[t].clone());
                            proof {
                                assert(views(nk@) =~~= l3.push(names@[t as int]@));
                            }
                            jf.family.remove(&nk);
                            proof {
                                assert(jf.family.view_map() =~= pruned_names(
                                    jenter,
                                    l3,
                                    names@,
                                    t + 1,
                                ));
                            }
                            t += 1;
                        }
                        proof {
                            assert forall|k: Seq<Seq<char>>|
                                pruned_names(jenter, l3, names@, nn as int).dom().contains(k)
                                    == pruned_by_prefix(jm0, removed@, i + 1).dom().contains(
                                    k,
                                ) by {
                                if jm0.dom().contains(k) {
                                    assert(k.len() == 4);
                                    if prefix_match(r, k) {
                                        assert(idx0.dom().contains(seq![
                                            jf.command@,
                                            k[0],
                                            k[1],
                                            k[2],
                                        ]) && name_recorded(
                                            idx0[seq![jf.command@, k[0], k[1], k[2]]],
                                            k[3],
                                        ));
                                        assert(seq![jf.command@, k[0], k[1], k[2]] =~~= k4);
                                        let w = choose|w: int|
                                            0 <= w < names@.len() && (#[trigger] names@[w])@
                                                == k[3];
                                        assert(k =~~= l3.push(names@[w]@));
                                    } else {
                                        assert forall|t2: int|
                                            0 <= t2 < nn implies k != l3.push(
                                            (#[trigger] names@[t2])@,
                                        ) by {
                                            if k == l3.push(names@[t2]@) {
                                                assert(k[0] == l3[0] && k[1] == l3[1] && k[2]
                                                    == l3[2]);
                                                assert(false);
                                            }
                                        }
                                    }
                                }
                            }
                            assert(jf.family.view_map() =~= pruned_by_prefix(
                                jm0,
                                removed@,
                                i + 1,
                            ));
                        }
                    },
                    None => {
                        proof {
                            assert forall|k: Seq<Seq<char>>|
                                jenter.dom().contains(k) == pruned_by_prefix(
                                    jm0,
                                    removed@,
                                    i + 1,
                                ).dom().contains(k) by {
                                if jm0.dom().contains(k) {
                                    if prefix_match(r, k) {
                                        assert(idx0.dom().contains(seq![
                                            jf.command@,
                                            k[0],
                                            k[1],
                                            k[2],
                                        ]));
                                        assert(seq![jf.command@, k[0], k[1], k[2]] =~~= k4);
                                        // the index entry must already have been
                                        // processed, so an earlier pass removed
                                        // these series
                                        assert(idx_processed(
                                            k4,
                                            cmds,
                                            removed@,
                                            d as int,
                                            i as int,
                                        ));
                                        let (e, j) = choose|e: int, j: int|
                                            0 <= e < cmds.len() && 0 <= j < removed@.len() && (e
                                                < d || (e == d && j < i)) && k4 == key4v(
                                                #[trigger] cmds[e],
                                                #[trigger] removed@[j],
                                            );
                                        assert(cmds[e] == k4[0] && cmds[d as int] == k4[0]);
                                        assert(e == d) by {
                                            if e != d {
                                                assert(cmds[e] != cmds[d as int]);
                                            }
                                        }
                                        assert(j < i && prefix_match(removed@[j], k));
                                    } else {
                                        assert(!(exists|j: int|
                                            0 <= j < i + 1 && prefix_match(
                                                #[trigger] removed@[j],
                                                k,
                                            )) <==> !(exists|j: int|
                                            0 <= j < i && prefix_match(
                                                #[trigger] removed@[j],
                                                k,
                                            )) || prefix_match(removed@[i as int], k));
                                    }
                                }
                            }
                            assert(jf.family.view_map() =~= pruned_by_prefix(
                                jm0,
                                removed@,
                                i + 1,
                            ));
                        }
                    },
                }
                self.jstat_labels.remove(&key4);
                proof {
                    assert forall|k: Seq<Seq<char>>|
                        self.jstat_labels.map_view().dom().contains(k) == pruned_index(
                            idx0,
                            cmds,
                            removed@,
                            d as int,
                            i + 1,
                        ).dom().contains(k) by {
                        if idx0.dom().contains(k) {
                            if k == k4 {
                                assert(idx_processed(k, cmds, removed@, d as int, i + 1));
                            } else if idx_processed(k, cmds, removed@, d as int, i + 1) {
                                let (e, j) = choose|e: int, j: int|
                                    0 <= e < cmds.len() && 0 <= j < removed@.len() && (e < d || (e
                                        == d && j < i + 1)) && k == key4v(
                                        #[trigger] cmds[e],
                                        #[trigger] removed@[j],
                                    );
                                if e == d && j == i {
                                    assert(k == k4);
                                    assert(false);
                                }
                                assert(idx_processed(k, cmds, removed@, d as int, i as int));
                            }
                        }
                    }
                    assert(self.jstat_labels.map_view() =~= pruned_index(
                        idx0,
                        cmds,
                        removed@,
                        d as int,
                        i + 1,
                    ));
                }
                i += 1;
            }
            newjf.push(jf);
            proof {
                assert forall|k: Seq<Seq<char>>|
                    pruned_index(idx0, cmds, removed@, d as int, nr as int).dom().contains(k)
                        == pruned_index(idx0, cmds, removed@, d + 1, 0).dom().contains(k) by {
                    if idx0.dom().contains(k) {
                        if idx_processed(k, cmds, removed@, d as int, nr as int) {
                            assert(idx_processed(k, cmds, removed@, d + 1, 0));
                        }
                        if idx_processed(k, cmds, removed@, d + 1, 0) {
                            let (e, j) = choose|e: int, j: int|
                                0 <= e < cmds.len() && 0 <= j < removed@.len() && (e < d + 1 || (e
                                    == d + 1 && j < 0)) && k == key4v(
                                    #[trigger] cmds[e],
                                    #[trigger] removed@[j],
                                );
                            assert(e < d || (e == d && j < nr));
                            assert(idx_processed(k, cmds, removed@, d as int, nr as int));
                        }
                    }
                }
                assert(self.jstat_labels.map_view() =~= pruned_index(
                    idx0,
                    cmds,
                    removed@,
                    d + 1,
                    0,
                ));
            }
            d += 1;
        }
        self.process_metrics.jstat_metrics = newjf;

        // install the discovery outcome as the active set
        self.active_pids = current;

        proof {
            // the index now holds exactly the entries of live identities
            assert forall|k: Seq<Seq<char>>|
                pruned_index(idx0, cmds, removed@, ncmd as int, 0).dom().contains(k)
                    == live_restrict_index(idx0, cur).dom().contains(k) by {
                if idx0.dom().contains(k) {
                    assert(index_ok(idx0, act0, cmds));
                    assert(k.len() == 4 && act0.dom().contains(seq![k[1], k[2]]) && act0[seq![
                        k[1],
                        k[2],
                    ]] == k[3] && cmds.contains(k[0]));
                    if cur.dom().contains(seq![k[1], k[2]]) {
                        if idx_processed(k, cmds, removed@, ncmd as int, 0) {
                            let (e, j) = choose|e: int, j: int|
                                0 <= e < cmds.len() && 0 <= j < removed@.len() && (e < ncmd || (e
                                    == ncmd && j < 0)) && k == key4v(
                                    #[trigger] cmds[e],
                                    #[trigger] removed@[j],
                                );
                            assert(rid(removed@[j]) =~~= seq![k[1], k[2]]);
                            assert(false);
                        }
                    } else {
                        let w = choose|w: int|
                            0 <= w < removed@.len() && rid(#[trigger] removed@[w]) == seq![
                                k[1],
                                k[2],
                            ];
                        let e = choose|e: int| 0 <= e < cmds.len() && #[trigger] cmds[e] == k[0];
                        assert(rid(removed@[w])[0] == k[1] && rid(removed@[w])[1] == k[2]);
                        assert(removed@[w].process@ == act0[seq![k[1], k[2]]]);
                        assert(k =~~= key4v(cmds[e], removed@[w]));
                        assert(idx_processed(k, cmds, removed@, ncmd as int, 0));
                    }
                }
            }
            assert(self.jstat_labels.map_view() == pruned_index(
                idx0,
                cmds,
                removed@,
                ncmd as int,
                0,
            ));
            assert forall|k: Seq<Seq<char>>|
                pruned_index(idx0, cmds, removed@, ncmd as int, 0).dom().contains(k) implies
                pruned_index(idx0, cmds, removed@, ncmd as int, 0)[k] == live_restrict_index(
                idx0,
                cur,
            )[k] by {
                assert(live_restrict_index(idx0, cur).dom().contains(k));
            }
            assert(pruned_index(idx0, cmds, removed@, ncmd as int, 0) =~= live_restrict_index(
                idx0,
                cur,
            ));

            // each diagnostic family is exactly live-restricted
            assert forall|j: int| 0 <= j < ncmd implies (#[trigger] self
                .process_metrics
                .jstat_metrics@[j]).command == jold[j].command
                && self.process_metrics.jstat_metrics@[j].family.name == jold[j].family.name
                && self.process_metrics.jstat_metrics@[j].family.view_map() == live_restrict(
                jold[j].family.view_map(),
                cur,
            ) by {
                assert(jstat_fam_ok(jold[j].family.view_map(), jold[j].command@, act0, idx0));
                assert(fam_ok(jold[j].family.view_map(), act0)) by {
                    assert forall|k: Seq<Seq<char>>| #[trigger]
                        jold[j].family.view_map().dom().contains(k) implies ident_ok(
                        k,
                        act0,
                    ) by {}
                }
                lemma_pruned_is_restrict(jold[j].family.view_map(), act0, cur, removed@, true);
            }

            // the registry invariant holds of the reconciled state
            assert(self.active() == cur);
            assert(self.commands() =~~= cmds);
            assert forall|j: int| 0 <= j < self.ident_families().len() implies fam_ok(
                #[trigger] self.ident_families()[j],
                self.active(),
            ) by {
                let fams = self.ident_families();
                assert forall|k: Seq<Seq<char>>| #[trigger] fams[j].dom().contains(k) implies
                    ident_ok(k, cur) by {
                    if j == 0 {
                        assert(live_restrict(m0_cpu, cur).dom().contains(k));
                        assert(m0_cpu.dom().contains(k) && cur.dom().contains(seq![k[0], k[1]]));
                        assert(fam_ok(m0_cpu, act0));
                        assert(act0[seq![k[0], k[1]]] == k[2]);
                    } else if j == 1 {
                        assert(m0_mem.dom().contains(k) && cur.dom().contains(seq![k[0], k[1]]));
                        assert(fam_ok(m0_mem, act0));
                        assert(act0[seq![k[0], k[1]]] == k[2]);
                    } else if j == 2 {
                        assert(m0_pct.dom().contains(k) && cur.dom().contains(seq![k[0], k[1]]));
                        assert(fam_ok(m0_pct, act0));
                        assert(act0[seq![k[0], k[1]]] == k[2]);
                    } else if j == 3 {
                        assert(m0_start.dom().contains(k) && cur.dom().contains(seq![k[0], k[1]]));
                        assert(fam_ok(m0_start, act0));
                        assert(act0[seq![k[0], k[1]]] == k[2]);
                    } else if j == 4 {
                        assert(m0_up.dom().contains(k) && cur.dom().contains(seq![k[0], k[1]]));
                        assert(fam_ok(m0_up, act0));
                        assert(act0[seq![k[0], k[1]]] == k[2]);
                    } else if j == 5 {
                        assert(m0_of.dom().contains(k) && cur.dom().contains(seq![k[0], k[1]]));
                        assert(fam_ok(m0_of, act0));
                        assert(act0[seq![k[0], k[1]]] == k[2]);
                    } else {
                        assert(m0_ofl.dom().contains(k) && cur.dom().contains(seq![k[0], k[1]]));
                        assert(fam_ok(m0_ofl, act0));
                        assert(act0[seq![k[0], k[1]]] == k[2]);
                    }
                }
            }
            assert(tcp_fam_ok(self.process_metrics.tcp_connection_states.view_map(), cur)) by {
                assert forall|k: Seq<Seq<char>>| #[trigger]
                    self.process_metrics.tcp_connection_states.view_map().dom().contains(
                        k,
                    ) implies ident_ok(k, cur) && tcp_state_texts().contains(k[3]) by {
                    assert(m0_tcp.dom().contains(k) && cur.dom().contains(seq![k[0], k[1]]));
                    assert(tcp_fam_ok(m0_tcp, act0));
                    assert(act0[seq![k[0], k[1]]] == k[2]);
                }
            }
            assert forall|j: int| 0 <= j < self.process_metrics.jstat_metrics@.len() implies
                jstat_fam_ok(
                (#[trigger] self.process_metrics.jstat_metrics@[j]).family.view_map(),
                self.process_metrics.jstat_metrics@[j].command@,
                self.active(),
                self.index(),
            ) by {
                let fm = self.process_metrics.jstat_metrics@[j].family.view_map();
                let cmdj = self.process_metrics.jstat_metrics@[j].command@;
                assert(jstat_fam_ok(jold[j].family.view_map(), cmdj, act0, idx0));
                assert forall|k: Seq<Seq<char>>| #[trigger] fm.dom().contains(k) implies ident_ok(
                    k,
                    cur,
                ) && self.index().dom().contains(seq![cmdj, k[0], k[1], k[2]]) && name_recorded(
                    self.index()[seq![cmdj, k[0], k[1], k[2]]],
                    k[3],
                ) by {
                    assert(jold[j].family.view_map().dom().contains(k) && cur.dom().contains(seq![
                        k[0],
                        k[1],
                    ]));
                    assert(act0[seq![k[0], k[1]]] == k[2]);
                    let ok4 = seq![cmdj, k[0], k[1], k[2]];
                    assert(idx0.dom().contains(ok4) && name_recorded(idx0[ok4], k[3]));
                    assert(ok4.len() == 4 && ok4[1] == k[0] && ok4[2] == k[1]);
                    assert(live_restrict_index(idx0, cur).dom().contains(ok4));
                    assert(self.index()[ok4] == idx0[ok4]);
                }
            }
            assert(index_ok(self.index(), self.active(), self.commands())) by {
                assert forall|k: Seq<Seq<char>>| #[trigger] self.index().dom().contains(k) implies
                    k.len() == 4 && cur.dom().contains(seq![k[1], k[2]]) && cur[seq![k[1], k[2]]]
                    == k[3] && self.commands().contains(k[0]) by {
                    assert(idx0.dom().contains(k));
                    assert(index_ok(idx0, act0, cmds));
                    assert(act0[seq![k[1], k[2]]] == k[3]);
                    assert(cur[seq![k[1], k[2]]] == act0[seq![k[1], k[2]]]);
                    let e = choose|e: int| 0 <= e < cmds.len() && #[trigger] cmds[e] == k[0];
                    assert(self.commands()[e] == cmds[e]);
                }
            }
        }
    }
}

/// The reconciliation relation: `post` is `pre` after one reconciliation
/// against the discovery outcome `cur` — vanished identities evicted from
/// every per-process family and from the label index, and `cur` installed
/// as the active set.
pub open spec fn reconciled(
    pre: Metrics,
    cur: Map<Seq<Seq<char>>, Seq<char>>,
    post: Metrics,
) -> bool {
    &&& post.active() == cur
    &&& post.index() == live_restrict_index(pre.index(), cur)
    &&& post.process_metrics.cpu_usage.view_map() == live_restrict(
        pre.process_metrics.cpu_usage.view_map(),
        cur,
    )
    &&& post.process_metrics.memory_usage.view_map() == live_restrict(
        pre.process_metrics.memory_usage.view_map(),
        cur,
    )
    &&& post.process_metrics.memory_usage_percentage.view_map() == live_restrict(
        pre.process_metrics.memory_usage_percentage.view_map(),
        cur,
    )
    &&& post.process_metrics.start_time.view_map() == live_restrict(
        pre.process_metrics.start_time.view_map(),
        cur,
    )
    &&& post.process_metrics.up_time.view_map() == live_restrict(
        pre.process_metrics.up_time.view_map(),
        cur,
    )
    &&& post.process_metrics.open_file.view_map() == live_restrict(
        pre.process_metrics.open_file.view_map(),
        cur,
    )
    &&& post.process_metrics.open_file_limit.view_map() == live_restrict(
        pre.process_metrics.open_file_limit.view_map(),
        cur,
    )
    &&& post.process_metrics.tcp_connection_states.view_map() == live_restrict(
        pre.process_metrics.tcp_connection_states.view_map(),
        cur,
    )
    &&& post.process_metrics.jstat_metrics@.len() == pre.process_metrics.jstat_metrics@.len()
    &&& forall|j: int|
        0 <= j < pre.process_metrics.jstat_metrics@.len() ==> (#[trigger] post
            .process_metrics
            .jstat_metrics@[j]).command == pre.process_metrics.jstat_metrics@[j].command
            && post.process_metrics.jstat_metrics@[j].family.view_map() == live_restrict(
            pre.process_metrics.jstat_metrics@[j].family.view_map(),
            cur,
        )
}

/// No per-process family of `m` holds a series of the identity `id`.
pub open spec fn no_series_for(m: Metrics, id: Seq<Seq<char>>) -> bool {
    &&& forall|i: int|
        0 <= i < m.ident_families().len() ==> forall|k: Seq<Seq<char>>|
            (#[trigger] m.ident_families()[i]).dom().contains(k) ==> seq![k[0], k[1]] != id
    &&& forall|k: Seq<Seq<char>>| #[trigger]
        m.process_metrics.tcp_connection_states.view_map().dom().contains(k) ==> seq![k[0], k[1]]
            != id
    &&& forall|j: int, k: Seq<Seq<char>>|
        0 <= j < m.process_metrics.jstat_metrics@.len() && #[trigger] m.process_metrics.jstat_metrics@[j].family.view_map().dom().contains(k) ==> seq![k[0], k[1]] != id
}

/// Law: eviction is idempotent.  Once an identity is no longer discovered, a
/// first reconciliation removes all its series, and a second reconciliation
/// against the same discovery outcome changes nothing at all.
pub proof fn lemma_eviction_idempotent(
    pre: Metrics,
    mid: Metrics,
    fin: Metrics,
    cur: Map<Seq<Seq<char>>, Seq<char>>,
    id: Seq<Seq<char>>,
)
    requires
        reconciled(pre, cur, mid),
        reconciled(mid, cur, fin),
        !cur.dom().contains(id),
    ensures
        no_series_for(mid, id),
        fin.active() == mid.active(),
        fin.index() == mid.index(),
        fin.process_metrics.cpu_usage.view_map() == mid.process_metrics.cpu_usage.view_map(),
        fin.process_metrics.memory_usage.view_map()
            == mid.process_metrics.memory_usage.view_map(),
        fin.process_metrics.memory_usage_percentage.view_map()
            == mid.process_metrics.memory_usage_percentage.view_map(),
        fin.process_metrics.start_time.view_map() == mid.process_metrics.start_time.view_map(),
        fin.process_metrics.up_time.view_map() == mid.process_metrics.up_time.view_map(),
        fin.process_metrics.open_file.view_map() == mid.process_metrics.open_file.view_map(),
        fin.process_metrics.open_file_limit.view_map()
            == mid.process_metrics.open_file_limit.view_map(),
        fin.process_metrics.tcp_connection_states.view_map()
            == mid.process_metrics.tcp_connection_states.view_map(),
        forall|j: int|
            0 <= j < mid.process_metrics.jstat_metrics@.len() ==> (#[trigger] fin
                .process_metrics
                .jstat_metrics@[j]).family.view_map()
                == mid.process_metrics.jstat_metrics@[j].family.view_map(),
{
    assert forall|m0: Map<Seq<Seq<char>>, Seq<char>>|
        live_restrict(#[trigger] live_restrict(m0, cur), cur) == live_restrict(m0, cur) by {
        assert(live_restrict(live_restrict(m0, cur), cur) =~= live_restrict(m0, cur));
    }
    assert(fin.index() =~= mid.index());
    assert forall|j: int| 0 <= j < mid.process_metrics.jstat_metrics@.len() implies (
    #[trigger] fin.process_metrics.jstat_metrics@[j]).family.view_map()
        == mid.process_metrics.jstat_metrics@[j].family.view_map() by {
        assert(mid.process_metrics.jstat_metrics@[j].family.view_map() == live_restrict(
            pre.process_metrics.jstat_metrics@[j].family.view_map(),
            cur,
        ));
    }
    assert forall|i: int| 0 <= i < mid.ident_families().len() implies forall|k: Seq<Seq<char>>|
        (#[trigger] mid.ident_families()[i]).dom().contains(k) ==> seq![k[0], k[1]] != id by {
        assert forall|k: Seq<Seq<char>>|
            (#[trigger] mid.ident_families()[i]).dom().contains(k) implies seq![k[0], k[1]]
            != id by {
            assert(mid.ident_families()[i] == live_restrict(pre.ident_families()[i], cur)) by {
                if i == 0 {
                } else if i == 1 {
                } else if i == 2 {
                } else if i == 3 {
                } else if i == 4 {
                } else if i == 5 {
                } else {
                    assert(i == 6);
                }
            }
            assert(cur.dom().contains(seq![k[0], k[1]]));
        }
    }
    assert forall|j: int, k: Seq<Seq<char>>|
        0 <= j < mid.process_metrics.jstat_metrics@.len() && #[trigger] mid.process_metrics.jstat_metrics@[j].family.view_map().dom().contains(k) implies seq![k[0], k[1]]
        != id by {
        assert(mid.process_metrics.jstat_metrics@[j].family.view_map() == live_restrict(
            pre.process_metrics.jstat_metrics@[j].family.view_map(),
            cur,
        ));
        assert(cur.dom().contains(seq![k[0], k[1]]));
    }
}

/// Law, one half of label hygiene: right after a reconciliation, every label
/// combination still present in any per-process family — the resource
/// gauges, the TCP-state gauges and every diagnostic family — belongs to an
/// identity of the new active set.  No orphaned series survive.
pub proof fn lemma_no_orphaned_series(
    pre: Metrics,
    cur: Map<Seq<Seq<char>>, Seq<char>>,
    post: Metrics,
)
    requires
        reconciled(pre, cur, post),
    ensures
        forall|i: int|
            0 <= i < post.ident_families().len() ==> forall|k: Seq<Seq<char>>|
                (#[trigger] post.ident_families()[i]).dom().contains(k)
                    ==> post.active().dom().contains(seq![k[0], k[1]]),
        forall|k: Seq<Seq<char>>| #[trigger]
            post.process_metrics.tcp_connection_states.view_map().dom().contains(k)
                ==> post.active().dom().contains(seq![k[0], k[1]]),
        forall|j: int, k: Seq<Seq<char>>|
            0 <= j < post.process_metrics.jstat_metrics@.len() && #[trigger] post.process_metrics.jstat_metrics@[j].family.view_map().dom().contains(k)
                ==> post.active().dom().contains(seq![k[0], k[1]]),
{
    assert forall|i: int| 0 <= i < post.ident_families().len() implies forall|k: Seq<Seq<char>>|
        (#[trigger] post.ident_families()[i]).dom().contains(k) ==> post.active().dom().contains(
            seq![k[0], k[1]],
        ) by {
        assert forall|k: Seq<Seq<char>>|
            (#[trigger] post.ident_families()[i]).dom().contains(k) implies post
                .active()
                .dom()
                .contains(seq![k[0], k[1]]) by {
            assert(post.ident_families()[i] == live_restrict(pre.ident_families()[i], cur)) by {
                if i == 0 {
                } else if i == 1 {
                } else if i == 2 {
                } else if i == 3 {
                } else if i == 4 {
                } else if i == 5 {
                } else {
                    assert(i == 6);
                }
            }
        }
    }
}

} // verus!
