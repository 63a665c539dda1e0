use puppynet::update::verify_signature;
use rsa::pkcs1v15::SigningKey;
use rsa::pkcs8::{EncodePublicKey, LineEnding};
use rsa::signature::{SignatureEncoding, Signer};
use rsa::RsaPrivateKey;

#[test]
fn tampered_binary_fails_verification() {
    let mut rng = rand::thread_rng();
    let private = RsaPrivateKey::new(&mut rng, 1024).unwrap();
    let pem = private.to_public_key().to_public_key_pem(LineEnding::LF).unwrap();
    let signing = SigningKey::<sha2::Sha256>::new(private);
    let binary = b"release binary contents".to_vec();
    let signature = signing.sign(&binary).to_vec();
    assert_eq!(verify_signature(&pem, &binary, &signature), Ok(true));
    let mut tampered = binary.clone();
    tampered[3] ^= 0x01;
    assert_eq!(verify_signature(&pem, &tampered, &signature), Ok(false));
    let mut bad_sig = signature.clone();
    bad_sig[0] ^= 0x80;
    assert_eq!(verify_signature(&pem, &binary, &bad_sig), Ok(false));
}
