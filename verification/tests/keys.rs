use city_chain::keys::{KeyPair, NTRUKeys, NtruEncrypt, NtruParam, NtruSign};
use sha2::{Digest, Sha256};

fn sample_pair(public_len: usize, private_len: usize) -> KeyPair {
    KeyPair {
        public_key: (0..public_len).map(|i| (i % 251) as u8).collect(),
        private_key: (0..private_len).map(|i| (i % 241) as u8).collect(),
    }
}

#[test]
fn test_generate_params() {
    let ntru_param = NtruParam::new(sample_pair(935, 1574));
    let (public_key, private_key) = ntru_param.generate_params();

    assert_eq!(public_key.len(), 935);
    assert_eq!(private_key.len(), 1574);
}

#[test]
fn params_hand_out_the_keys_they_hold() {
    let pair = sample_pair(7, 9);
    let public = pair.public_key.clone();
    let private = pair.private_key.clone();
    let param = NtruParam::new(pair);
    assert_eq!(param.get_public_key(), public);
    assert_eq!(param.get_private_key(), private);
    let (a, b) = param.generate_params();
    assert_eq!(a, public);
    assert_eq!(b, private);
    assert_ne!(a, b);
}

#[test]
fn encrypt_holder_hands_out_its_keys() {
    let holder = NtruEncrypt::new(sample_pair(4, 6));
    assert_eq!(holder.get_public_key(), vec![0, 1, 2, 3]);
    assert_eq!(holder.get_private_key(), vec![0, 1, 2, 3, 4, 5]);
}

#[test]
fn sign_holder_hands_out_its_keys() {
    let holder = NtruSign::new(sample_pair(3, 2));
    assert_eq!(holder.get_public_key(), vec![0, 1, 2]);
    assert_eq!(holder.get_private_key(), vec![0, 1]);
}

#[test]
fn sign_holder_digests_the_message() {
    let holder = NtruSign::new(sample_pair(3, 2));
    let message = b"Hello, NTRU Signature!";
    let digest = holder.digest_to_sign(message);
    assert_eq!(digest.len(), 32);
    assert_eq!(digest, Sha256::digest(message).to_vec());
    assert_ne!(digest, holder.digest_to_sign(b"Hello, Invalid Signature!"));
}

#[test]
fn exchanged_keys_copy_the_pair() {
    let pair = sample_pair(5, 5);
    let keys = NTRUKeys::from_pair(&pair);
    assert_eq!(keys.public_key, pair.public_key);
    assert_eq!(keys.private_key, pair.private_key);
}
