use indy_vdr::did::{default_libindy_did, DidMethod, DidValue, ShortDidValue};
use indy_vdr::hash::{
    digest, hash_leaf, hash_nodes, verify_consistency, verify_inclusion, ProofStep,
    EMPTY_HASH_BYTES, HASHBYTES,
};
use indy_vdr::validation::ValidationError;

#[test]
fn digest_of_empty_input() {
    let expected: Vec<u8> = vec![
        227, 176, 196, 66, 152, 252, 28, 20, 154, 251, 244, 200, 153, 111, 185, 36, 39, 174, 65,
        228, 100, 155, 147, 76, 164, 149, 153, 27, 120, 82, 184, 85,
    ];
    assert_eq!(digest(&[]), expected);
    assert_eq!(digest(&[]), EMPTY_HASH_BYTES.to_vec());
    assert_eq!(digest(&[]).len(), HASHBYTES);
}

#[test]
fn leaf_digest_is_domain_prefixed() {
    assert_eq!(hash_leaf(&vec![]), digest(&[0u8]));
    assert_eq!(hash_leaf(&vec![97, 98, 99]), digest(&[0, 97, 98, 99]));
}

#[test]
fn node_digest_is_domain_prefixed() {
    assert_eq!(hash_nodes(&vec![], &vec![]), digest(&[1u8]));
    assert_eq!(hash_nodes(&vec![5, 6], &vec![7]), digest(&[1, 5, 6, 7]));
}

#[test]
fn domain_separation_leaf_vs_node() {
    let payloads: Vec<Vec<u8>> = vec![vec![], vec![0], vec![1], vec![42, 42, 42]];
    for x in payloads {
        assert_ne!(hash_leaf(&x), hash_nodes(&x, &x));
    }
}

#[test]
fn inclusion_proof_roundtrip() {
    let a = b"left leaf".to_vec();
    let b = b"right leaf".to_vec();
    let la = hash_leaf(&a);
    let lb = hash_leaf(&b);
    let root = hash_nodes(&la, &lb);
    let proof_a = vec![ProofStep { sibling: lb.clone(), sibling_on_left: false }];
    let proof_b = vec![ProofStep { sibling: la.clone(), sibling_on_left: true }];
    assert!(verify_inclusion(&a, &proof_a, &root));
    assert!(verify_inclusion(&b, &proof_b, &root));
    assert!(!verify_inclusion(&a, &proof_b, &root));
}

#[test]
fn inclusion_proof_depth_two() {
    let leaves: Vec<Vec<u8>> = vec![
        b"a".to_vec(),
        b"b".to_vec(),
        b"c".to_vec(),
        b"d".to_vec(),
    ];
    let la = hash_leaf(&leaves[0]);
    let lb = hash_leaf(&leaves[1]);
    let lc = hash_leaf(&leaves[2]);
    let ld = hash_leaf(&leaves[3]);
    let n0 = hash_nodes(&la, &lb);
    let n1 = hash_nodes(&lc, &ld);
    let root = hash_nodes(&n0, &n1);
    let proof_c = vec![
        ProofStep { sibling: ld.clone(), sibling_on_left: false },
        ProofStep { sibling: n0.clone(), sibling_on_left: true },
    ];
    assert!(verify_inclusion(&leaves[2], &proof_c, &root));
    let proof_wrong_order = vec![
        ProofStep { sibling: n0.clone(), sibling_on_left: true },
        ProofStep { sibling: ld.clone(), sibling_on_left: false },
    ];
    assert!(!verify_inclusion(&leaves[2], &proof_wrong_order, &root));
}

#[test]
fn tampered_sibling_rejected() {
    let a = b"payload".to_vec();
    let b = b"other".to_vec();
    let la = hash_leaf(&a);
    let lb = hash_leaf(&b);
    let root = hash_nodes(&la, &lb);
    for i in 0..lb.len() {
        let mut bad = lb.clone();
        bad[i] ^= 0x01;
        let proof = vec![ProofStep { sibling: bad, sibling_on_left: false }];
        assert!(!verify_inclusion(&a, &proof, &root));
    }
}

#[test]
fn consistency_proof_checks_sizes_and_root() {
    let old_root = hash_leaf(&b"genesis".to_vec());
    let appended = hash_leaf(&b"next".to_vec());
    let new_root = hash_nodes(&old_root, &appended);
    let path = vec![ProofStep { sibling: appended.clone(), sibling_on_left: false }];
    assert!(verify_consistency(1, 2, &old_root, &new_root, &path));
    assert!(!verify_consistency(2, 2, &old_root, &new_root, &path));
    assert!(!verify_consistency(2, 1, &old_root, &new_root, &path));
    let mut bad = new_root.clone();
    bad[0] ^= 0xFF;
    assert!(!verify_consistency(1, 2, &old_root, &bad, &path));
}

#[test]
fn did_new_combines_method() {
    let d = DidValue::new("abc", Some("sov"));
    assert_eq!(d.0, "did:sov:abc");
    let bare = DidValue::new("abc", None);
    assert_eq!(bare.0, "abc");
}

#[test]
fn did_to_short_strips_qualification() {
    let d = DidValue::new("VsKV7grR1BUE29mG2Fm2kX", Some("sov"));
    assert_eq!(d.to_short().0, "VsKV7grR1BUE29mG2Fm2kX");
    let bare = DidValue::new("VsKV7grR1BUE29mG2Fm2kX", None);
    assert_eq!(bare.to_short().0, "VsKV7grR1BUE29mG2Fm2kX");
}

#[test]
fn did_is_abbreviatable() {
    assert!(DidValue::new("abc", Some("sov")).is_abbreviatable());
    assert!(!DidValue::new("abc", Some("indy")).is_abbreviatable());
    assert!(DidValue::new("abc", None).is_abbreviatable());
}

#[test]
fn short_did_qualify() {
    let s = ShortDidValue("abc".to_string());
    assert_eq!(s.qualify(Some("indy".to_string())).0, "did:indy:abc");
    assert_eq!(s.qualify(None).0, "abc");
}

#[test]
fn short_did_from_string() {
    let s = ShortDidValue::from("xyz".to_string());
    assert_eq!(s.0, "xyz");
}

#[test]
fn did_validate_by_decoded_length() {
    assert_eq!(default_libindy_did().validate(), Ok(()));
    assert_eq!(
        DidValue("abc".to_string()).validate(),
        Err(ValidationError::InvalidLength)
    );
    assert_eq!(
        DidValue("0abc".to_string()).validate(),
        Err(ValidationError::InvalidFormat)
    );
    assert_eq!(DidValue("did:sov:whatever+++".to_string()).validate(), Ok(()));
}

#[test]
fn short_did_validate() {
    let good = ShortDidValue("LibindyDid111111111111".to_string());
    assert_eq!(good.validate(), Ok(()));
    assert_eq!(
        ShortDidValue("ab".to_string()).validate(),
        Err(ValidationError::InvalidLength)
    );
    assert_eq!(
        ShortDidValue("O0Il".to_string()).validate(),
        Err(ValidationError::InvalidFormat)
    );
}

#[test]
fn did_method_validate() {
    assert_eq!(DidMethod("sov".to_string()).validate(), Ok(()));
    assert_eq!(DidMethod("indy123".to_string()).validate(), Ok(()));
    assert_eq!(
        DidMethod("Sov".to_string()).validate(),
        Err(ValidationError::InvalidFormat)
    );
    assert_eq!(
        DidMethod(String::new()).validate(),
        Err(ValidationError::InvalidFormat)
    );
}

#[test]
fn default_did_value() {
    assert_eq!(default_libindy_did().0, "LibindyDid111111111111");
}
