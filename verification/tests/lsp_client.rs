use ctx::lsp::client::{RequestAccounting, DEFAULT_REQUEST_TIMEOUT_MS, WARMUP_TIMEOUT_MS};
use ctx::lsp::transport::TransportError;

#[test]
fn warmup_timeout_applies_until_the_first_outcome() {
    let mut acc = RequestAccounting::new(None);
    assert_eq!(acc.begin(), Ok(WARMUP_TIMEOUT_MS));
    assert_eq!(acc.finish("initialize", &Ok(())), (Ok(()), false));
    assert_eq!(acc.begin(), Ok(DEFAULT_REQUEST_TIMEOUT_MS));

    let explicit = RequestAccounting::new(Some(5000));
    assert_eq!(explicit.begin(), Ok(5000));
    let long = RequestAccounting::new(None);
    assert!(long.begin().unwrap() >= 60000);
}

#[test]
fn three_consecutive_timeouts_fail_the_server() {
    let mut acc = RequestAccounting::new(None);
    let (r, kill) = acc.finish("textDocument/documentSymbol", &Err(TransportError::Timeout));
    assert_eq!(r, Err("textDocument/documentSymbol timed out".to_string()));
    assert!(!kill);
    assert_eq!(acc.finish("a", &Err(TransportError::Timeout)), (Err("a timed out".to_string()), false));
    assert_eq!(acc.consecutive_timeouts, 2);
    let (r, kill) = acc.finish("textDocument/definition", &Err(TransportError::Timeout));
    assert_eq!(r, Err("textDocument/definition timed out".to_string()));
    assert!(kill);
    assert_eq!(
        acc.begin(),
        Err("3 consecutive request timeouts (last: textDocument/definition)".to_string())
    );
}

#[test]
fn answers_and_rpc_errors_reset_the_timeout_count() {
    let mut acc = RequestAccounting::new(None);
    acc.finish("a", &Err(TransportError::Timeout));
    acc.finish("b", &Err(TransportError::Timeout));
    let (r, kill) = acc.finish("c", &Err(TransportError::Rpc("method not found".to_string())));
    assert_eq!(r, Err("c: method not found".to_string()));
    assert!(!kill);
    assert_eq!(acc.consecutive_timeouts, 0);
    assert!(acc.failed.is_none());
    acc.finish("d", &Err(TransportError::Timeout));
    acc.finish("e", &Ok(()));
    assert_eq!(acc.consecutive_timeouts, 0);
    assert!(acc.begin().is_ok());
}

#[test]
fn broken_connections_fail_with_the_first_reason() {
    let mut acc = RequestAccounting::new(None);
    let (r, kill) = acc.finish("textDocument/didOpen", &Err(TransportError::Closed));
    assert_eq!(
        r,
        Err("connection lost during textDocument/didOpen (server exited?)".to_string())
    );
    assert!(kill);
    acc.fail("later".to_string());
    assert_eq!(
        acc.begin(),
        Err("connection lost during textDocument/didOpen (server exited?)".to_string())
    );

    let mut acc = RequestAccounting::new(None);
    let (r, kill) = acc.finish("shutdown", &Err(TransportError::Io("broken pipe".to_string())));
    assert_eq!(r, Err("write failed during shutdown: broken pipe".to_string()));
    assert!(kill);
    assert_eq!(acc.failed.as_deref(), Some("write failed during shutdown: broken pipe"));
}
