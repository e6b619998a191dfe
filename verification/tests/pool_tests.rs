use pollux::pool::{Credential, CredentialPool, LeaseDecision};

fn cred(id: i64, project: &str, expiry_ms: u64) -> Credential {
    Credential {
        id,
        email: None,
        project_id: project.to_string(),
        refresh_token: format!("refresh-{id}"),
        access_token: Some(format!("access-{id}")),
        expiry_ms,
        status: true,
    }
}

fn pool_with(creds: Vec<Credential>) -> CredentialPool {
    let mut pool = CredentialPool::new(60_000);
    pool.submit_credentials(creds);
    pool
}

fn lease_id(pool: &mut CredentialPool, mask: u64, now: u64) -> Option<i64> {
    match pool.get_credential(mask, now) {
        LeaseDecision::Lease(c) => Some(c.id),
        _ => None,
    }
}

#[test]
fn rate_limit_cooldown() {
    let mask: u64 = 1;
    let mut pool = pool_with(vec![cred(1, "project-1", u64::MAX)]);

    assert_eq!(lease_id(&mut pool, mask, 1_000), Some(1));
    pool.report_rate_limit(1, mask, 500, 1_000);

    assert!(lease_id(&mut pool, mask, 1_400).is_none());
    assert_eq!(lease_id(&mut pool, mask, 1_500), Some(1));

    let other_mask: u64 = 2;
    assert_eq!(lease_id(&mut pool, other_mask, 1_400), Some(1));
}

#[test]
fn lease_prefers_least_loaded_then_lowest_id() {
    let mask: u64 = 1;
    let mut pool = pool_with(vec![cred(2, "project-2", u64::MAX), cred(1, "project-1", u64::MAX)]);

    assert_eq!(lease_id(&mut pool, mask, 0), Some(1));
    assert_eq!(lease_id(&mut pool, mask, 0), Some(2));
    pool.release(1);
    assert_eq!(lease_id(&mut pool, mask, 0), Some(1));
}

#[test]
fn release_restores_in_flight() {
    let mask: u64 = 1;
    let mut pool = pool_with(vec![cred(1, "project-1", u64::MAX)]);
    let before: Vec<u32> = pool.entries.iter().map(|e| e.in_flight).collect();

    assert_eq!(lease_id(&mut pool, mask, 0), Some(1));
    assert_eq!(pool.entries[0].in_flight, 1);
    pool.release(1);

    let after: Vec<u32> = pool.entries.iter().map(|e| e.in_flight).collect();
    assert_eq!(before, after);
}

#[test]
fn banned_and_invalid_credentials_are_excluded() {
    let mask: u64 = 1;
    let mut pool = pool_with(vec![cred(1, "project-1", u64::MAX), cred(2, "project-2", u64::MAX)]);

    pool.report_banned(1);
    assert_eq!(lease_id(&mut pool, mask, 0), Some(2));
    pool.report_invalid(2);
    assert!(matches!(pool.get_credential(mask, 0), LeaseDecision::NoneAvailable));
}

#[test]
fn unsupported_model_mask_excludes_only_that_model() {
    let mask: u64 = 4;
    let other: u64 = 8;
    let mut pool = pool_with(vec![cred(1, "project-1", u64::MAX)]);

    pool.report_model_unsupported(1, mask);
    assert!(lease_id(&mut pool, mask, 0).is_none());
    assert_eq!(lease_id(&mut pool, other, 0), Some(1));
}

#[test]
fn near_expiry_credential_needs_refresh_before_lease() {
    let mask: u64 = 1;
    let mut pool = pool_with(vec![cred(1, "project-1", 30_000)]);

    match pool.get_credential(mask, 0) {
        LeaseDecision::NeedsRefresh(id) => assert_eq!(id, 1),
        other => panic!("expected a refresh demand, got {other:?}"),
    }
    pool.apply_refresh(1, "fresh-token".to_string(), 10_000_000);
    match pool.get_credential(mask, 0) {
        LeaseDecision::Lease(c) => {
            assert_eq!(c.id, 1);
            assert_eq!(c.access_token.as_deref(), Some("fresh-token"));
        },
        other => panic!("expected a lease, got {other:?}"),
    }
}

#[test]
fn failed_refresh_marks_credential_invalid() {
    let mask: u64 = 1;
    let mut pool = pool_with(vec![cred(1, "project-1", 30_000)]);

    assert!(matches!(pool.get_credential(mask, 0), LeaseDecision::NeedsRefresh(1)));
    pool.refresh_failed(1);
    assert!(matches!(pool.get_credential(mask, 0), LeaseDecision::NoneAvailable));
}

#[test]
fn submit_updates_existing_credential_and_keeps_health() {
    let mask: u64 = 1;
    let mut pool = pool_with(vec![cred(1, "project-1", u64::MAX)]);
    pool.report_rate_limit(1, mask, 1_000, 0);

    pool.submit_credentials(vec![cred(1, "project-1b", u64::MAX)]);
    assert_eq!(pool.entries.len(), 1);
    assert_eq!(pool.entries[0].cred.project_id, "project-1b");
    assert!(lease_id(&mut pool, mask, 500).is_none());
    assert_eq!(lease_id(&mut pool, mask, 1_000), Some(1));
}
