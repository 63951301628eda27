use bep_rs::peer_connection::cert_verifier::{check_cert, compare_arrays};

#[test]
fn certificate_matches_peer_digest() {
    let cert = b"a certificate".to_vec();
    let digest = ring::digest::digest(&ring::digest::SHA256, &cert).as_ref().to_vec();
    let ids = vec![vec![1, 2, 3], digest.clone()];
    assert_eq!(check_cert(&cert, &ids), Some(digest));
    assert_eq!(check_cert(b"another", &ids), None);
    assert_eq!(check_cert(&cert, &vec![]), None);
    assert!(compare_arrays(&[1, 2], &[1, 2]));
    assert!(!compare_arrays(&[1, 2], &[1]));
}
