use gig_protocol::error::Error;
use gig_protocol::types::{AccountId, Origin};
use gig_protocol::whitelist::{Event, Whitelist};

fn url(s: &str) -> Vec<u8> {
    s.as_bytes().to_vec()
}

#[test]
fn test_is_whitelisted() {
    let mut wl = Whitelist::new(256);
    let valid_url = url("http://example.com");
    let long_url = vec![b'a'; 300];
    let invalid_url = url("http://not-in-whitelist.com");
    assert_eq!(wl.add_url(Origin::Root, valid_url.clone()), Ok(()));
    let result = wl.is_whitelisted(&valid_url);
    assert!(result.is_ok() && result.unwrap(), "Expected URL to be whitelisted");
    let result = wl.is_whitelisted(&invalid_url);
    assert!(result.is_ok() && !result.unwrap(), "Expected URL to not be whitelisted");
    let result = wl.is_whitelisted(&long_url);
    assert!(matches!(result, Err(Error::UrlTooLong)), "Expected UrlTooLong error");
}

#[test]
fn add_url_to_whitelist_works() {
    let mut wl = Whitelist::new(256);
    let u = url("http://example.com");
    assert_eq!(wl.add_url(Origin::Root, u.clone()), Ok(()));
    assert_eq!(wl.is_whitelisted(&u), Ok(true));
    assert!(wl.events.iter().any(|e| matches!(e, Event::UrlAdded { url } if *url == u)));
}

#[test]
fn add_url_exceeding_max_length_fails() {
    let mut wl = Whitelist::new(256);
    let long_url = vec![b'a'; 300];
    assert_eq!(wl.add_url(Origin::Root, long_url), Err(Error::UrlTooLong));
    assert!(wl.events.is_empty());
}

#[test]
fn add_duplicate_url_fails() {
    let mut wl = Whitelist::new(256);
    let u = url("http://example.com");
    assert_eq!(wl.add_url(Origin::Root, u.clone()), Ok(()));
    assert_eq!(wl.add_url(Origin::Root, u.clone()), Err(Error::UrlAlreadyWhitelisted));
    assert_eq!(wl.events.len(), 1);
}

#[test]
fn remove_url_from_whitelist_works() {
    let mut wl = Whitelist::new(256);
    let u = url("http://example.com");
    assert_eq!(wl.add_url(Origin::Root, u.clone()), Ok(()));
    assert_eq!(wl.remove_url(Origin::Root, u.clone()), Ok(()));
    assert_eq!(wl.is_whitelisted(&u), Ok(false));
    assert!(wl.events.iter().any(|e| matches!(e, Event::UrlRemoved { url } if *url == u)));
}

#[test]
fn remove_nonexistent_url_fails() {
    let mut wl = Whitelist::new(256);
    assert_eq!(wl.remove_url(Origin::Root, url("http://example.com")), Err(Error::UrlNotWhitelisted));
}

#[test]
fn non_root_cannot_add_url() {
    let mut wl = Whitelist::new(256);
    let non_root = AccountId::new([2; 32]);
    assert_eq!(wl.add_url(Origin::Signed(non_root), url("http://example.com")), Err(Error::BadOrigin));
    assert_eq!(wl.is_whitelisted(&url("http://example.com")), Ok(false));
}

#[test]
fn tests_add_to_whitelist_works() {
    let mut wl = Whitelist::new(256);
    let u = url("http://example.com");
    assert_eq!(wl.add_url(Origin::Root, u.clone()), Ok(()));
    assert_eq!(wl.events.last(), Some(&Event::UrlAdded { url: u.clone() }));
}

#[test]
fn add_to_whitelist_fails_if_already_whitelisted() {
    let mut wl = Whitelist::new(256);
    let u = url("http://example.com");
    assert_eq!(wl.add_url(Origin::Root, u.clone()), Ok(()));
    assert_eq!(wl.add_url(Origin::Root, u.clone()), Err(Error::UrlAlreadyWhitelisted));
}

#[test]
fn tests_remove_from_whitelist_works() {
    let mut wl = Whitelist::new(256);
    let u = url("http://example.com");
    assert_eq!(wl.add_url(Origin::Root, u.clone()), Ok(()));
    assert_eq!(wl.remove_url(Origin::Root, u.clone()), Ok(()));
    assert_eq!(wl.is_whitelisted(&u), Ok(false));
    assert_eq!(wl.events.last(), Some(&Event::UrlRemoved { url: u.clone() }));
}

#[test]
fn remove_from_whitelist_fails_if_not_whitelisted() {
    let mut wl = Whitelist::new(256);
    assert_eq!(wl.remove_url(Origin::Root, url("http://example.com")), Err(Error::UrlNotWhitelisted));
}

#[test]
fn whitelist_membership_follows_last_add_or_remove() {
    let mut wl = Whitelist::new(256);
    let a = url("http://a.example");
    let b = url("http://b.example");
    assert_eq!(wl.add_url(Origin::Root, a.clone()), Ok(()));
    assert_eq!(wl.add_url(Origin::Root, b.clone()), Ok(()));
    assert_eq!(wl.remove_url(Origin::Root, a.clone()), Ok(()));
    assert_eq!(wl.is_whitelisted(&a), Ok(false));
    assert_eq!(wl.is_whitelisted(&b), Ok(true));
    assert_eq!(wl.add_url(Origin::Root, a.clone()), Ok(()));
    assert_eq!(wl.is_whitelisted(&a), Ok(true));
    assert_eq!(wl.events.len(), 4);
}

#[test]
fn url_at_length_bound_is_accepted_and_one_over_is_not() {
    let mut wl = Whitelist::new(256);
    assert_eq!(wl.add_url(Origin::Root, vec![b'x'; 256]), Ok(()));
    assert_eq!(wl.is_whitelisted(&vec![b'x'; 256]), Ok(true));
    assert_eq!(wl.remove_url(Origin::Root, vec![b'x'; 257]), Err(Error::UrlTooLong));
    assert_eq!(wl.remove_url(Origin::Signed(AccountId::new([1; 32])), vec![b'x'; 256]), Err(Error::BadOrigin));
}
