use cxdb::reconnect::after_redial;
use cxdb::session::server_host;
use cxdb::error::Error;
use cxdb::options::{with_follow_symlinks, Options};
use cxdb::session::{next_request_id, request_budget, RequestCounter};
use cxdb::snapshot::{Builder, EntryAction};
use cxdb::context::RequestContext;
use cxdb::conversation::{is_false, is_zero_i64, map_is_empty, Now};
use cxdb::provenance::{
    env_vars_to_record, new_provenance, new_provenance_at, normalize_arch, with_parent_context, with_service, with_spawn_reason, Provenance,
};
use cxdb::upload::UploadResult;
use std::collections::HashMap;
use std::time::Duration;

#[test]
fn contexts_and_cancellation() {
    let bg = RequestContext::background();
    assert!(bg.deadline().is_none());
    assert!(!bg.is_cancelled());
    let (ctx, handle) = RequestContext::cancellable();
    assert!(!ctx.is_cancelled());
    let shared = ctx.share();
    handle.cancel();
    assert!(ctx.is_cancelled());
    assert!(shared.is_cancelled());
    let t = RequestContext::with_timeout(Duration::from_secs(5));
    assert!(t.deadline().is_some());
}

#[test]
fn upload_accounting() {
    let mut r = UploadResult::new([9u8; 32]);
    r.record_tree(true, 10);
    r.record_tree(false, 10);
    r.record_file(true, 5);
    r.record_file(false, 5);
    r.record_file(true, 1);
    assert_eq!((r.trees_uploaded, r.trees_skipped, r.files_uploaded, r.files_skipped, r.bytes_uploaded), (1, 1, 2, 1, 16));
    assert_eq!(r.root_hash, [9u8; 32]);
}

#[test]
fn provenance_settings() {
    let p = new_provenance_at(
        None,
        vec![
            with_parent_context(7, 0),
            with_spawn_reason("fork".into()),
            with_service("svc".into(), "1.0".into(), "".into()),
        ],
        1234,
    );
    assert_eq!(p.parent_context_id, Some(7));
    assert_eq!(p.root_context_id, Some(7));
    assert_eq!(p.spawn_reason, "fork");
    assert_eq!(p.service_name, "svc");
    assert_eq!(p.captured_at, 1234);
    let q = new_provenance_at(Some(p.clone()), vec![with_parent_context(8, 2), with_service("s".into(), "2".into(), "id".into())], 5);
    assert_eq!(q.root_context_id, Some(2));
    assert_eq!(q.service_instance_id, "id");
    assert_eq!(q.spawn_reason, "fork");
    assert_eq!(Provenance::default().captured_at, 0);
}

#[test]
fn arch_names() {
    assert_eq!(normalize_arch("x86_64"), "amd64");
    assert_eq!(normalize_arch("aarch64"), "arm64");
    assert_eq!(normalize_arch("riscv64"), "riscv64");
}

#[test]
fn skip_predicates_and_clock() {
    assert!(is_zero_i64(&0));
    assert!(!is_zero_i64(&-1));
    assert!(is_false(&false));
    assert!(!is_false(&true));
    let mut m = HashMap::new();
    assert!(map_is_empty(&m));
    m.insert("k".to_string(), "v".to_string());
    assert!(!map_is_empty(&m));
    assert!(Now() > 1_600_000_000_000);
}

#[test]
fn request_checks() {
    assert!(matches!(request_budget(true, true, 100, None), Err(Error::ClientClosed)));
    assert!(matches!(request_budget(false, true, 100, None), Err(Error::Cancelled)));
    assert!(matches!(request_budget(false, false, 100, Some(0)), Err(Error::Timeout)));
    assert_eq!(request_budget(false, false, 100, Some(40)).unwrap(), 40);
    assert_eq!(request_budget(false, false, 100, Some(400)).unwrap(), 100);
    assert_eq!(request_budget(false, false, 30_000, None).unwrap(), 30_000);
    assert_eq!(next_request_id(0), 1);
    assert_eq!(next_request_id(41), 42);
    assert_eq!(next_request_id(u64::MAX), 0);
}

#[test]
fn walk_dispatch() {
    let b = Builder::new(Options::default());
    assert_eq!(b.classify(true, false), EntryAction::Link);
    assert_eq!(b.classify(false, true), EntryAction::Walk);
    assert_eq!(b.classify(false, false), EntryAction::Read);
    let mut o = Options::default();
    o.apply(with_follow_symlinks());
    let f = Builder::new(o);
    assert_eq!(f.classify(true, true), EntryAction::Walk);
    assert_eq!(f.classify(true, false), EntryAction::Read);
}

#[test]
fn env_vars_keep_set_values() {
    assert!(env_vars_to_record(vec![]).is_none());
    assert!(env_vars_to_record(vec![("A".into(), "".into())]).is_none());
    let kept = env_vars_to_record(vec![
        ("A".into(), "".into()),
        ("B".into(), "x".into()),
        ("C".into(), "y".into()),
    ])
    .unwrap();
    assert_eq!(kept, vec![("B".to_string(), "x".to_string()), ("C".to_string(), "y".to_string())]);
}

#[test]
fn provenance_now_keeps_base() {
    let base = new_provenance_at(None, vec![with_spawn_reason("r".into())], 1);
    let p = new_provenance(Some(base), vec![]);
    assert_eq!(p.spawn_reason, "r");
    assert!(p.captured_at > 1);
    let q = new_provenance(None, vec![]);
    assert_eq!(q.spawn_reason, "");
}

#[test]
fn request_ids_count_from_one() {
    let mut c = RequestCounter::new();
    assert_eq!((c.next(), c.next(), c.next()), (1, 2, 3));
}

#[test]
fn server_host_from_address() {
    assert_eq!(server_host("localhost:8443"), "localhost");
    assert_eq!(server_host("[::1]:8443"), "::1");
    assert_eq!(server_host("[[fe80::1]:1"), "fe80::1");
    assert_eq!(server_host("a:b:c"), "a:b");
    assert_eq!(server_host("plainhost"), "plainhost");
    assert_eq!(server_host(""), "");
}

#[test]
fn redial_outcomes() {
    let first: Result<(), Error> = Err(Error::Timeout);
    assert!(matches!(after_redial(Err(Error::Timeout), Err(Error::Cancelled), true), Some(Err(Error::Cancelled))));
    assert!(after_redial(Err(Error::Timeout), Ok(()), true).is_none());
    assert!(matches!(after_redial(first, Ok(()), false), Some(Err(Error::Timeout))));
}
