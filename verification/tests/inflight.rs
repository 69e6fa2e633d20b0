use nomt::inflight::InflightFetch;
use nomt::page::PageData;
use nomt::rw_pass::RwPassDomain;

#[test]
fn a_fetch_is_completed_once() {
    let mut domain = RwPassDomain::new();
    let first = domain.protect(PageData::pristine_empty());
    let second = domain.protect(PageData::pristine_empty());

    let mut fetch = InflightFetch::new();
    assert_eq!(fetch.wait(), None);
    assert!(fetch.complete_and_notify(first));
    assert_eq!(fetch.wait(), Some(first));
    assert!(!fetch.complete_and_notify(second));
    assert_eq!(fetch.wait(), Some(first));
    assert_eq!(fetch.wait(), Some(first));
}
