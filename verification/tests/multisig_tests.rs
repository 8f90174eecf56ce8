use satoshi_suite::multisig::{
    extract_int_ext_xpubs, multisig_descriptor, multisig_descriptors_for, MultisigWallet,
};
use satoshi_suite::UtilsError;

fn descriptor_set(n: u8) -> Vec<Vec<u8>> {
    vec![
        format!("pkh([aaaaaaaa/44h/1h/0h]xpubFake{n}/0/*)#qqqq").into_bytes(),
        format!("wpkh([deadbeef/84h/1h/0h]tpubExternal{n}/0/*)#abcd").into_bytes(),
        format!("wpkh([deadbeef/84h/1h/0h]tpubInternal{n}/1/*)#efgh").into_bytes(),
    ]
}

#[test]
fn extraction_finds_and_strips_both_descriptors() {
    let p = extract_int_ext_xpubs(&descriptor_set(1)).unwrap();
    assert_eq!(p.external, b"tpubExternal1/0/*".to_vec());
    assert_eq!(p.internal, b"tpubInternal1/1/*".to_vec());
}

#[test]
fn extraction_fails_without_external_descriptor() {
    // The descriptor set lacks a wpkh `/0/*` entry.
    let ds = vec![
        b"pkh([aaaaaaaa/44h/1h/0h]xpubFake/0/*)#qqqq".to_vec(),
        b"wpkh([deadbeef/84h/1h/0h]tpubInternal/1/*)#efgh".to_vec(),
    ];
    assert_eq!(extract_int_ext_xpubs(&ds), Err(UtilsError::DescriptorNotFound));
}

#[test]
fn extraction_fails_without_internal_descriptor() {
    let ds = vec![b"wpkh([deadbeef/84h/1h/0h]tpubExternal/0/*)#abcd".to_vec()];
    assert_eq!(extract_int_ext_xpubs(&ds), Err(UtilsError::DescriptorNotFound));
}

#[test]
fn stripping_without_origin_keeps_everything_before_the_wrapper_close() {
    // With no origin bracket there is nothing to strip in front: only
    // the part after the first ')' is dropped.
    let ds = vec![b"wpkh(tpubPlain/0/*)".to_vec(), b"wpkh(tpubPlain/1/*)".to_vec()];
    let p = extract_int_ext_xpubs(&ds).unwrap();
    assert_eq!(p.external, b"wpkh(tpubPlain/0/*".to_vec());
    assert_eq!(p.internal, b"wpkh(tpubPlain/1/*".to_vec());
}

#[test]
fn descriptor_assembly_formats_the_sorted_multisig() {
    let xpubs = vec![b"keyA/0/*".to_vec(), b"keyB/0/*".to_vec(), b"keyC/0/*".to_vec()];
    let d = multisig_descriptor(2, &xpubs);
    assert_eq!(
        String::from_utf8(d).unwrap(),
        "wsh(sortedmulti(2, keyA/0/*, keyB/0/*, keyC/0/*))"
    );
}

#[test]
fn three_participant_descriptors_assemble_in_order() {
    let participants = vec![descriptor_set(1), descriptor_set(2), descriptor_set(3)];
    let (ext, int) = multisig_descriptors_for(2, &participants).unwrap();
    assert_eq!(
        String::from_utf8(ext).unwrap(),
        "wsh(sortedmulti(2, tpubExternal1/0/*, tpubExternal2/0/*, tpubExternal3/0/*))"
    );
    assert_eq!(
        String::from_utf8(int).unwrap(),
        "wsh(sortedmulti(2, tpubInternal1/1/*, tpubInternal2/1/*, tpubInternal3/1/*))"
    );
}

#[test]
fn missing_participant_entry_fails_the_assembly() {
    let mut participants = vec![descriptor_set(1), descriptor_set(2), descriptor_set(3)];
    participants[1].remove(1); // drop participant 2's external entry
    assert_eq!(
        multisig_descriptors_for(2, &participants),
        Err(UtilsError::DescriptorNotFound)
    );
}

#[test]
fn multisig_wallet_record_holds_its_fields() {
    let w = MultisigWallet {
        name: "shared".to_string(),
        nrequired: 2,
        signers: vec!["alice".to_string(), "bob".to_string(), "carol".to_string()],
    };
    assert_eq!(w.nrequired, 2);
    assert_eq!(w.signers.len(), 3);
}
