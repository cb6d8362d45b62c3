use uvr::error::looks_like_certificate_failure;

#[test]
fn certificate_failures_are_recognized() {
    // #227: these are the shapes rustls/reqwest produce for an
    // untrusted CA — each must be distinguishable from being offline.
    for msg in [
        "error sending request: invalid peer certificate: UnknownIssuer",
        "tls handshake eof",
        "invalid peer certificate: Expired",
        "cert verify failed",
    ] {
        assert!(looks_like_certificate_failure(msg), "{msg}");
    }
}

#[test]
fn ordinary_network_failures_are_not_mislabelled() {
    // A genuine connectivity problem must not be reported as a trust
    // problem — that would send users to fix the wrong thing.
    for msg in [
        "error sending request: connection refused",
        "dns error: failed to lookup address information",
        "operation timed out",
        "connection reset by peer (os error 104)",
    ] {
        assert!(!looks_like_certificate_failure(msg), "{msg}");
    }
}
