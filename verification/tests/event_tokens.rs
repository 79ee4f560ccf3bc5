use socks5_proxy::scheduler::{is_token_ready, next_token};

#[test]
fn next_token_counts_up() {
    assert_eq!(next_token(0), 1);
    assert_eq!(next_token(1), 2);
    assert_eq!(next_token(usize::MAX - 1), usize::MAX);
}

#[test]
fn token_ready_when_listed() {
    assert!(is_token_ready(&[3, 1, 2], 1));
    assert!(!is_token_ready(&[3, 2], 1));
    assert!(!is_token_ready(&[], 0));
}

