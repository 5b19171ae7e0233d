use uefi_amt_provision::lme::{CHANNEL_OPEN_READS, HANDSHAKE_READS, RECEIVE_READS};
use uefi_amt_provision::report::CODE_VERSIONS_TRIES;
use uefi_amt_provision::retry::Attempts;

#[test]
fn budget_gives_exactly_limit_attempts() {
    let mut a = Attempts::new(3);
    let mut n = 0;
    while a.take() {
        n += 1;
    }
    assert_eq!(n, 3);
    assert!(!a.take());
    let mut none = Attempts::new(0);
    assert!(!none.take());
}

#[test]
fn retry_limits() {
    assert_eq!(HANDSHAKE_READS, 40);
    assert_eq!(CHANNEL_OPEN_READS, 30);
    assert_eq!(RECEIVE_READS, 100);
    assert_eq!(CODE_VERSIONS_TRIES, 30);
}
