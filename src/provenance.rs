//! Provenance of a conversation context: who wrote it, from which process
//! and on whose behalf.

use vstd::prelude::*;
use std::collections::HashMap;
use crate::conversation::wall_clock_ms;
use crate::text::chars_of;
use crate::text::chars_equal;

verus! {

/// Where a context comes from.
#[derive(Debug, Clone, PartialEq)]
pub struct Provenance {
    pub parent_context_id: Option<u64>,
    pub spawn_reason: String,
    pub root_context_id: Option<u64>,
    pub trace_id: String,
    pub span_id: String,
    pub correlation_id: String,
    pub on_behalf_of: String,
    pub on_behalf_of_source: String,
    pub on_behalf_of_email: String,
    pub writer_method: String,
    pub writer_subject: String,
    pub writer_issuer: String,
    pub service_name: String,
    pub service_version: String,
    pub service_instance_id: String,
    pub process_pid: i64,
    pub process_owner: String,
    pub host_name: String,
    pub host_arch: String,
    pub client_address: String,
    pub client_port: i64,
    pub env_vars: Option<HashMap<String, String>>,
    pub sdk_name: String,
    pub sdk_version: String,
    pub captured_at: i64,
}

impl Default for Provenance {
    /// Nothing known: empty strings, no ids, no variables.
    fn default() -> (r: Provenance)
        ensures
            r.parent_context_id is None,
            r.root_context_id is None,
            r.process_pid == 0,
            r.client_port == 0,
            r.env_vars is None,
            r.captured_at == 0,
            r.spawn_reason@.len() == 0,
            r.trace_id@.len() == 0,
            r.span_id@.len() == 0,
            r.correlation_id@.len() == 0,
            r.on_behalf_of@.len() == 0,
            r.on_behalf_of_source@.len() == 0,
            r.on_behalf_of_email@.len() == 0,
            r.writer_method@.len() == 0,
            r.writer_subject@.len() == 0,
            r.writer_issuer@.len() == 0,
            r.service_name@.len() == 0,
            r.service_version@.len() == 0,
            r.service_instance_id@.len() == 0,
            r.process_owner@.len() == 0,
            r.host_name@.len() == 0,
            r.host_arch@.len() == 0,
            r.client_address@.len() == 0,
            r.sdk_name@.len() == 0,
            r.sdk_version@.len() == 0,
    {
        Provenance {
            parent_context_id: None,
            root_context_id: None,
            process_pid: 0,
            client_port: 0,
            env_vars: None,
            captured_at: 0,
            spawn_reason: String::new(),
            trace_id: String::new(),
            span_id: String::new(),
            correlation_id: String::new(),
            on_behalf_of: String::new(),
            on_behalf_of_source: String::new(),
            on_behalf_of_email: String::new(),
            writer_method: String::new(),
            writer_subject: String::new(),
            writer_issuer: String::new(),
            service_name: String::new(),
            service_version: String::new(),
            service_instance_id: String::new(),
            process_owner: String::new(),
            host_name: String::new(),
            host_arch: String::new(),
            client_address: String::new(),
            sdk_name: String::new(),
            sdk_version: String::new(),
        }
    }
}

/// One setting of a [`Provenance`].
#[derive(Debug, Clone)]
pub enum ProvenanceOption {
    ParentContext(u64, u64),
    SpawnReason(String),
    TraceContext(String, String),
    CorrelationId(String),
    OnBehalfOf(String, String, String),
    WriterIdentity(String, String, String),
    EnvVars(Option<HashMap<String, String>>),
    Sdk(String, String),
    Service(String, String, String),
}

/// Sets the parent context; a root of 0 means the parent is the root.
pub fn with_parent_context(parent_id: u64, root_id: u64) -> (r: ProvenanceOption)
    ensures
        r == ProvenanceOption::ParentContext(parent_id, root_id),
{
    ProvenanceOption::ParentContext(parent_id, root_id)
}

pub fn with_spawn_reason(reason: String) -> (r: ProvenanceOption)
    ensures
        r == ProvenanceOption::SpawnReason(reason),
{
    ProvenanceOption::SpawnReason(reason)
}

pub fn with_trace_context(trace_id: String, span_id: String) -> (r: ProvenanceOption)
    ensures
        r == ProvenanceOption::TraceContext(trace_id, span_id),
{
    ProvenanceOption::TraceContext(trace_id, span_id)
}

pub fn with_correlation_id(id: String) -> (r: ProvenanceOption)
    ensures
        r == ProvenanceOption::CorrelationId(id),
{
    ProvenanceOption::CorrelationId(id)
}

pub fn with_on_behalf_of(user_id: String, source: String, email: String) -> (r: ProvenanceOption)
    ensures
        r == ProvenanceOption::OnBehalfOf(user_id, source, email),
{
    ProvenanceOption::OnBehalfOf(user_id, source, email)
}

pub fn with_writer_identity(method: String, subject: String, issuer: String) -> (r: ProvenanceOption)
    ensures
        r == ProvenanceOption::WriterIdentity(method, subject, issuer),
{
    ProvenanceOption::WriterIdentity(method, subject, issuer)
}

pub fn with_sdk(name: String, version: String) -> (r: ProvenanceOption)
    ensures
        r == ProvenanceOption::Sdk(name, version),
{
    ProvenanceOption::Sdk(name, version)
}

/// Sets the service; an empty instance id keeps the one already set.
pub fn with_service(name: String, version: String, instance_id: String) -> (r: ProvenanceOption)
    ensures
        r == ProvenanceOption::Service(name, version, instance_id),
{
    ProvenanceOption::Service(name, version, instance_id)
}

/// The provenance after one setting.
pub open spec fn applied(p: Provenance, opt: ProvenanceOption) -> Provenance {
    match opt {
        ProvenanceOption::ParentContext(id, root) => Provenance {
            parent_context_id: Some(id),
            root_context_id: Some(if root == 0 { id } else { root }),
            ..p
        },
        ProvenanceOption::SpawnReason(s) => Provenance { spawn_reason: s, ..p },
        ProvenanceOption::TraceContext(t, s) => Provenance { trace_id: t, span_id: s, ..p },
        ProvenanceOption::CorrelationId(c) => Provenance { correlation_id: c, ..p },
        ProvenanceOption::OnBehalfOf(u, s, e) => Provenance {
            on_behalf_of: u,
            on_behalf_of_source: s,
            on_behalf_of_email: e,
            ..p
        },
        ProvenanceOption::WriterIdentity(m, s, i) => Provenance {
            writer_method: m,
            writer_subject: s,
            writer_issuer: i,
            ..p
        },
        ProvenanceOption::EnvVars(vars) => Provenance { env_vars: vars, ..p },
        ProvenanceOption::Sdk(n, v) => Provenance { sdk_name: n, sdk_version: v, ..p },
        ProvenanceOption::Service(n, v, i) => Provenance {
            service_name: n,
            service_version: v,
            service_instance_id: if i@.len() == 0 { p.service_instance_id } else { i },
            ..p
        },
    }
}

/// The provenance after the settings, applied in order.
pub open spec fn applied_all(p: Provenance, opts: Seq<ProvenanceOption>) -> Provenance
    decreases opts.len(),
{
    if opts.len() == 0 {
        p
    } else {
        applied_all(applied(p, opts[0]), opts.drop_first())
    }
}

impl Provenance {
    /// Applies one setting to the fields it names.
    pub fn apply(&mut self, opt: ProvenanceOption)
        ensures
            *final(self) == applied(*old(self), opt),
    {
        match opt {
            ProvenanceOption::ParentContext(p, root) => {
                self.parent_context_id = Some(p);
                self.root_context_id = Some(if root == 0 { p } else { root });
            },
            ProvenanceOption::SpawnReason(s) => self.spawn_reason = s,
            ProvenanceOption::TraceContext(t, s) => {
                self.trace_id = t;
                self.span_id = s;
            },
            ProvenanceOption::CorrelationId(c) => self.correlation_id = c,
            ProvenanceOption::OnBehalfOf(u, s, e) => {
                self.on_behalf_of = u;
                self.on_behalf_of_source = s;
                self.on_behalf_of_email = e;
            },
            ProvenanceOption::WriterIdentity(m, s, i) => {
                self.writer_method = m;
                self.writer_subject = s;
                self.writer_issuer = i;
            },
            ProvenanceOption::EnvVars(vars) => self.env_vars = vars,
            ProvenanceOption::Sdk(n, v) => {
                self.sdk_name = n;
                self.sdk_version = v;
            },
            ProvenanceOption::Service(n, v, i) => {
                self.service_name = n;
                self.service_version = v;
                if !i.as_str().is_empty() {
                    self.service_instance_id = i;
                }
            },
        }
    }
}

/// A provenance that records nothing: no ids, no variables, empty strings,
/// zero numbers.
pub open spec fn is_empty_provenance(p: Provenance) -> bool {
    &&& p.parent_context_id is None
    &&& p.root_context_id is None
    &&& p.process_pid == 0
    &&& p.client_port == 0
    &&& p.env_vars is None
    &&& p.captured_at == 0
    &&& p.spawn_reason@.len() == 0
    &&& p.trace_id@.len() == 0
    &&& p.span_id@.len() == 0
    &&& p.correlation_id@.len() == 0
    &&& p.on_behalf_of@.len() == 0
    &&& p.on_behalf_of_source@.len() == 0
    &&& p.on_behalf_of_email@.len() == 0
    &&& p.writer_method@.len() == 0
    &&& p.writer_subject@.len() == 0
    &&& p.writer_issuer@.len() == 0
    &&& p.service_name@.len() == 0
    &&& p.service_version@.len() == 0
    &&& p.service_instance_id@.len() == 0
    &&& p.process_owner@.len() == 0
    &&& p.host_name@.len() == 0
    &&& p.host_arch@.len() == 0
    &&& p.client_address@.len() == 0
    &&& p.sdk_name@.len() == 0
    &&& p.sdk_version@.len() == 0
}

/// `r` is `base` (or an empty provenance) captured at `t`, with the
/// settings applied in order.
pub open spec fn provenance_from(base: Option<Provenance>, opts: Seq<ProvenanceOption>, t: i64, r: Provenance) -> bool {
    match base {
        Some(b) => r == applied_all(Provenance { captured_at: t, ..b }, opts),
        None => exists|d: Provenance| is_empty_provenance(d) && r == applied_all(Provenance { captured_at: t, ..d }, opts),
    }
}

/// A provenance captured at `now_ms`: a copy of `base` (or the empty one)
/// with the settings applied in order.
pub fn new_provenance_at(base: Option<Provenance>, opts: Vec<ProvenanceOption>, now_ms: i64) -> (r: Provenance)
    ensures
        r.captured_at == now_ms,
        provenance_from(base, opts@, now_ms, r),
{
    let mut p = match base {
        Some(b) => b,
        None => Provenance::default(),
    };
    let ghost d = p;
    p.captured_at = now_ms;
    let ghost start = p;
    let mut opts = opts;
    let ghost all = opts@;
    while opts.len() > 0
        invariant
            p.captured_at == now_ms,
            applied_all(start, all) == applied_all(p, opts@),
        decreases opts@.len(),
    {
        let ghost before = opts@;
        let o = opts.remove(0);
        assert(before.drop_first() =~= opts@);
        p.apply(o);
    }
    proof {
        if base is None {
            assert(is_empty_provenance(d));
            assert(start == Provenance { captured_at: now_ms, ..d });
        }
    }
    p
}

/// A provenance captured now: a copy of `base` (or the empty one) with the
/// settings applied in order.
pub fn new_provenance(base: Option<Provenance>, opts: Vec<ProvenanceOption>) -> (r: Provenance)
    ensures
        exists|t: i64| provenance_from(base, opts@, t, r),
{
    new_provenance_at(base, opts, wall_clock_ms())
}

/// A variable whose value is not empty.
pub open spec fn has_value() -> spec_fn((String, String)) -> bool {
    |p: (String, String)| p.1@.len() > 0
}

/// The variables among `pairs` whose values are not empty, in order.
pub open spec fn nonempty_vars(pairs: Seq<(String, String)>) -> Seq<(String, String)> {
    pairs.filter(has_value())
}

/// The environment variables to record from the values read for an allow
/// list: those with non-empty values, or none at all when no value is set.
pub fn env_vars_to_record(pairs: Vec<(String, String)>) -> (r: Option<Vec<(String, String)>>)
    ensures
        nonempty_vars(pairs@).len() == 0 ==> r is None,
        nonempty_vars(pairs@).len() > 0 ==> (r matches Some(v) && v@ == nonempty_vars(pairs@)),
{
    let ghost all = pairs@;
    let mut rest = pairs;
    let mut kept: Vec<(String, String)> = Vec::new();
    let ghost mut done: Seq<(String, String)> = Seq::empty();
    assert(done.filter(has_value()) =~= Seq::<(String, String)>::empty()) by {
        reveal(Seq::filter);
    }
    while rest.len() > 0
        invariant
            all == done + rest@,
            kept@ == done.filter(has_value()),
        decreases rest@.len(),
    {
        let ghost before = rest@;
        let pair = rest.remove(0);
        proof {
            done.lemma_filter_push(pair, has_value());
            done = done.push(pair);
            assert(all =~= done + rest@);
        }
        if !pair.1.as_str().is_empty() {
            kept.push(pair);
        }
    }
    assert(done =~= all);
    if kept.len() == 0 {
        None
    } else {
        Some(kept)
    }
}

/// The architecture names other clients use: `amd64` for `x86_64`, `arm64`
/// for `aarch64`, any other name as it is.
pub open spec fn arch_name(arch: Seq<char>) -> Seq<char> {
    if arch == "x86_64"@ {
        "amd64"@
    } else if arch == "aarch64"@ {
        "arm64"@
    } else {
        arch
    }
}

pub fn normalize_arch(arch: &str) -> (r: String)
    ensures
        r@ == arch_name(arch@),
{
    let a = chars_of(arch);
    let x = chars_of("x86_64");
    if chars_equal(&a, &x) {
        return "amd64".to_string();
    }
    let y = chars_of("aarch64");
    if chars_equal(&a, &y) {
        return "arm64".to_string();
    }
    arch.to_string()
}

} // verus!
