use solx::error::Error;
use solx::pubkey::Pubkey;
use solx::signer::Keypair;

#[test]
fn imported_keypair_requires_matching_public_key() {
    let bytes = ed25519_dalek::SigningKey::from_bytes(&[7; 32]).to_keypair_bytes();
    assert_eq!(
        Keypair::try_from(&bytes[..]).ok().unwrap().pubkey().as_array(),
        &bytes[32..]
    );
    let mut corrupt = bytes;
    corrupt[32] ^= 1;
    assert!(Keypair::try_from(&corrupt[..]).is_err());
}

#[test]
fn keypair_errors_tell_length_from_mismatch() {
    assert_eq!(
        Keypair::try_from(&[0; 63]).err().unwrap(),
        Error::InvalidKeypairLength
    );
    assert_eq!(
        Keypair::try_from(&[1; 64]).err().unwrap(),
        Error::KeypairMismatch
    );
    assert_eq!(Error::InvalidKeypairLength.message(), "invalid keypair length");
}

#[test]
fn keypair_bytes_and_signatures_are_those_of_ed25519() {
    let outside = ed25519_dalek::SigningKey::from_bytes(&[9; 32]);
    let own = Keypair::new_from_array([9; 32]);
    assert_eq!(own.to_keypair_bytes().as_array(), &outside.to_keypair_bytes());
    let signature = ed25519_dalek::Signer::sign(&outside, b"message").to_bytes();
    assert_eq!(own.sign_message(b"message"), signature);
    let back = Keypair::try_from(&own.to_keypair_bytes().as_array()[..]).ok().unwrap();
    assert_eq!(back.pubkey(), own.pubkey());
}

#[test]
fn address_text_reads_back() {
    let key = Pubkey::new_from_array([5; 32]);
    let text = key.text();
    assert_eq!(Pubkey::parse(&text).ok().unwrap(), key);
    assert_eq!(
        Pubkey::new_from_array([0; 32]).text(),
        "11111111111111111111111111111111"
    );
    assert_eq!(
        Pubkey::parse("not an address!").err().unwrap().message(),
        "Invalid Base58 string"
    );
}
