use depot::depot::{Depot, DepotError};

fn s(x: &str) -> String {
    x.to_string()
}

#[test]
fn origin_key_revisions_and_latest() {
    let mut d = Depot::new();
    let r = d.upload_origin_key(&s("acme"), &s("rev-1"), b"KEY1");
    assert_eq!(r, Ok(s("/origins/acme/keys/rev-1")));
    assert_eq!(d.upload_origin_key(&s("acme"), &s("rev-1"), b"KEY1"), Err(DepotError::Conflict));
    let latest = d.download_latest_origin_key(&s("acme")).unwrap();
    assert_eq!(latest.filename, s("acme-rev-1.pub"));
    assert_eq!(latest.bytes, b"KEY1".to_vec());
    assert!(d.upload_origin_key(&s("acme"), &s("rev-2"), b"KEY2").is_ok());
    let latest = d.download_latest_origin_key(&s("acme")).unwrap();
    assert_eq!(latest.filename, s("acme-rev-2.pub"));
    assert_eq!(latest.bytes, b"KEY2".to_vec());
    assert_eq!(d.list_origin_keys(&s("acme")), vec![s("rev-1"), s("rev-2")]);
    assert_eq!(d.latest_origin_key(&s("acme")), Some(s("rev-2")));
}

#[test]
fn key_lookups_that_find_nothing() {
    let mut d = Depot::new();
    assert_eq!(d.download_latest_origin_key(&s("acme")).unwrap_err(), DepotError::NotFound);
    assert_eq!(d.download_origin_key(&s("acme"), &s("r")).unwrap_err(), DepotError::NotFound);
    assert!(d.upload_origin_key(&s("acme"), &s("r"), b"K").is_ok());
    assert_eq!(d.download_origin_key(&s("acme"), &s("r")).unwrap().bytes, b"K".to_vec());
    assert!(d.list_origin_keys(&s("other")).is_empty());
}

#[test]
fn secret_key_needs_public_key() {
    let mut d = Depot::new();
    assert_eq!(
        d.upload_origin_secret_key(&s("acme"), &s("rev-1"), &s("SECRET-REDACTED")),
        Err(DepotError::NotFound)
    );
    assert!(d.upload_origin_key(&s("acme"), &s("rev-1"), b"PUB").is_ok());
    assert_eq!(
        d.upload_origin_secret_key(&s("acme"), &s("rev-1"), &s("SECRET-REDACTED")),
        Ok(s("/origins/acme/keys/rev-1"))
    );
    assert_eq!(
        d.upload_origin_secret_key(&s("acme"), &s("rev-1"), &s("SECRET-REDACTED")),
        Err(DepotError::Conflict)
    );
}

#[test]
fn origin_membership() {
    let mut d = Depot::new();
    assert_eq!(d.create_origin(&s("acme"), &s("owner")), Ok(s("/origins/acme/users/owner")));
    assert_eq!(d.create_origin(&s("acme"), &s("other")), Err(DepotError::Conflict));
    assert_eq!(d.add_user_to_origin(&s("acme"), &s("bob")), Ok(()));
    assert_eq!(d.add_user_to_origin(&s("acme"), &s("bob")), Ok(()));
    assert_eq!(d.origin_members(&s("acme")), Some(vec![s("owner"), s("bob")]));
    assert_eq!(d.remove_user_from_origin(&s("acme"), &s("owner")), Ok(()));
    assert_eq!(d.origin_members(&s("acme")), Some(vec![s("bob")]));
    assert_eq!(d.add_user_to_origin(&s("nope"), &s("bob")), Err(DepotError::NotFound));
    assert_eq!(d.remove_user_from_origin(&s("nope"), &s("bob")), Err(DepotError::NotFound));
}

#[test]
fn deleting_an_origin_keeps_its_keys() {
    let mut d = Depot::new();
    assert!(d.create_origin(&s("acme"), &s("owner")).is_ok());
    assert!(d.upload_origin_key(&s("acme"), &s("r1"), b"K").is_ok());
    assert_eq!(d.delete_origin(&s("acme")), Ok(()));
    assert_eq!(d.origin_members(&s("acme")), None);
    assert_eq!(d.delete_origin(&s("acme")), Err(DepotError::NotFound));
    assert!(d.download_origin_key(&s("acme"), &s("r1")).is_ok());
}
