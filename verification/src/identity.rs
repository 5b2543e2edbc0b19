//! Process identities as discovery produces them.

use vstd::prelude::*;

verus! {

/// One discovered JVM process: the execution context it was found in
/// (`host`, a container id, or `system`), its pid text, and its process
/// name (fully qualified or the last segment, per configuration).
pub struct ProcessInfo {
    pub container: String,
    pub pid: String,
    pub process: String,
}

impl ProcessInfo {
    /// The identity key of this process: its context and pid.
    pub open spec fn id(self) -> Seq<Seq<char>> {
        seq![self.container@, self.pid@]
    }

    /// The label triple naming this process's series.
    pub open spec fn label_view(self) -> Seq<Seq<char>> {
        seq![self.container@, self.pid@, self.process@]
    }

    /// The identity key as a label vector.
    pub fn id_key(&self) -> (r: Vec<String>)
        ensures
            crate::text::views(r@) == self.id(),
    {
        let mut r: Vec<String> = Vec::new();
        r.push(self.container.clone());
        r.push(self.pid.clone());
        proof {
            assert(crate::text::views(r@) =~~= self.id());
        }
        r
    }

    /// The label triple as a label vector.
    pub fn label_key(&self) -> (r: Vec<String>)
        ensures
            crate::text::views(r@) == self.label_view(),
    {
        let mut r: Vec<String> = Vec::new();
        r.push(self.container.clone());
        r.push(self.pid.clone());
        r.push(self.process.clone());
        proof {
            assert(crate::text::views(r@) =~~= self.label_view());
        }
        r
    }
}

/// The context text of processes found directly on the host.
pub fn host_scope() -> (r: String)
    ensures
        r@ == host_scope_text(),
{
    String::from_str("host")
}

/// The view of the host context text.
pub open spec fn host_scope_text() -> Seq<char> {
    "host"@
}

/// The context text of configured system processes.
pub fn system_scope() -> (r: String)
    ensures
        r@ == system_scope_text(),
{
    String::from_str("system")
}

/// The view of the system context text.
pub open spec fn system_scope_text() -> Seq<char> {
    "system"@
}

} // verus!
