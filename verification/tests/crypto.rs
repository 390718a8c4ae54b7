//! Hashing, keys, signatures, utilities, encryption and proof-system
//! parameters, exercised end to end with the real curve and hash crates.

use zkips::algebra::Fe;
use zkips::encryption::EncryptionScheme;
use zkips::hash::{CryptoHash, HashConfig, HashFunction, MerkleHash};
use zkips::keys::{HDKeyDeriver, KeyManager};
use zkips::signature::{Signature, SignatureScheme};
use zkips::utils::CryptoUtils;
use zkips::zk::{init, BatchProofVerifier, Proof, ZKParams};

#[test]
fn test_hash_functions() {
    let config = HashConfig::new(256);
    let hasher = CryptoHash::new(config);
    let data = b"test data";
    let hash = hasher.hash(data).unwrap();
    assert_eq!(hash.len(), 32);
}

#[test]
fn hash_test_hash_to_field() {
    let config = HashConfig::new(256);
    let hasher = CryptoHash::new(config);
    let data = b"test data";
    let field_element = hasher.hash_to_field(data).unwrap();
    assert_ne!(field_element, Fe::zero());
}

#[test]
fn test_merkle_hash() {
    let config = HashConfig::new(256);
    let merkle_hasher = MerkleHash::new(config);
    let left = b"left node";
    let right = b"right node";
    let hash = merkle_hasher.hash_nodes(left, right).unwrap();
    assert!(!hash.is_empty());
    let leaf_hash = merkle_hasher.hash_leaf(left).unwrap();
    assert!(!leaf_hash.is_empty());
}

#[test]
fn hash_differs_from_input() {
    let hasher = CryptoHash::new(HashConfig::new(256));
    let data = vec![0u8; 32];
    let hash = hasher.digest(&data);
    assert_ne!(hash, data);
    assert_ne!(hasher.digest(b"a"), hasher.digest(b"b"));
}

#[test]
fn test_crypto_initialization() {
    let params = init(128);
    assert!(params.is_ok());
}

#[test]
fn mod_test_invalid_security_level() {
    let params = init(64);
    assert!(params.is_err());
}

#[test]
fn test_keypair_generation() {
    let key_manager = KeyManager::new();
    let keypair = key_manager.generate_keypair();
    assert!(key_manager.verify_keypair(&keypair));
}

#[test]
fn test_key_export_import() {
    let key_manager = KeyManager::new();
    let original_keypair = key_manager.generate_keypair();
    let (secret_bytes, public_bytes) = key_manager.export_keypair(&original_keypair);
    let imported_keypair = key_manager.import_keypair(&secret_bytes, &public_bytes).unwrap();
    assert_eq!(original_keypair.secret_key, imported_keypair.secret_key);
    assert_eq!(original_keypair.public_key, imported_keypair.public_key);
}

#[test]
fn import_rejects_bad_lengths() {
    let key_manager = KeyManager::new();
    assert!(key_manager.import_keypair(&vec![1u8; 3], &vec![2u8; 48]).is_err());
    assert!(key_manager.import_keypair(&vec![1u8; 32], &vec![2u8; 5]).is_err());
}

#[test]
fn test_hd_key_derivation() {
    let hd_deriver = HDKeyDeriver::new();
    let key_manager = KeyManager::new();
    let parent = key_manager.generate_keypair();
    let child = hd_deriver.derive_child_key(&parent, 0).unwrap();
    assert!(key_manager.verify_keypair(&child));
    assert_ne!(parent.secret_key, child.secret_key);
}

#[test]
fn hd_derivation_is_deterministic() {
    let hd_deriver = HDKeyDeriver::new();
    let key_manager = KeyManager::new();
    let parent = key_manager.generate_keypair();
    let c1 = hd_deriver.derive_child_key(&parent, 7).unwrap();
    let c2 = hd_deriver.derive_child_key(&parent, 7).unwrap();
    assert_eq!(c1.secret_key, c2.secret_key);
    assert_eq!(c1.public_key, c2.public_key);
    let other = hd_deriver.derive_child_key(&parent, 8).unwrap();
    assert_ne!(c1.secret_key, other.secret_key);
}

#[test]
fn test_signature_scheme() {
    let scheme = SignatureScheme::new(128).unwrap();
    let message = b"test message";
    let key_manager = KeyManager::new();
    let keypair = key_manager.generate_keypair();
    let signature = scheme.sign(message, &keypair.secret_key).unwrap();
    let valid = scheme.verify(message, &signature, &keypair.public_key).unwrap();
    assert!(valid);
}

#[test]
fn signature_rejects_wrong_key_or_message() {
    let scheme = SignatureScheme::new(128).unwrap();
    let key_manager = KeyManager::new();
    let keypair = key_manager.generate_keypair();
    let other = key_manager.generate_keypair();
    let signature = scheme.sign(b"test message", &keypair.secret_key).unwrap();
    assert!(!scheme.verify(b"test message", &signature, &other.public_key).unwrap());
    assert!(!scheme.verify(b"other message", &signature, &keypair.public_key).unwrap());
}

#[test]
fn signature_scheme_rejects_low_security() {
    assert!(SignatureScheme::new(64).is_err());
}

#[test]
fn test_batch_signature() {
    let scheme = SignatureScheme::new(128).unwrap();
    let messages: Vec<Vec<u8>> =
        vec![b"message1".to_vec(), b"message2".to_vec(), b"message3".to_vec()];
    let key_manager = KeyManager::new();
    let keypair = key_manager.generate_keypair();
    let signatures = scheme.batch_sign(&messages, &keypair.secret_key).unwrap();
    let valid = scheme.batch_verify(&messages, &signatures, &keypair.public_key).unwrap();
    assert!(valid);
}

#[test]
fn batch_verify_rejects_length_mismatch() {
    let scheme = SignatureScheme::new(128).unwrap();
    let key_manager = KeyManager::new();
    let keypair = key_manager.generate_keypair();
    let signatures = scheme.batch_sign(&vec![b"m".to_vec()], &keypair.secret_key).unwrap();
    let messages: Vec<Vec<u8>> = vec![b"m".to_vec(), b"n".to_vec()];
    assert!(scheme.batch_verify(&messages, &signatures, &keypair.public_key).is_err());
}

#[test]
fn test_signature_serialization() {
    let scheme = SignatureScheme::new(128).unwrap();
    let message = b"test message";
    let key_manager = KeyManager::new();
    let keypair = key_manager.generate_keypair();
    let signature = scheme.sign(message, &keypair.secret_key).unwrap();
    let bytes = signature.to_bytes().unwrap();
    let deserialized = Signature::from_bytes(&bytes).unwrap();
    assert_eq!(signature.r, deserialized.r);
    assert_eq!(signature.s, deserialized.s);
}

#[test]
fn signature_wire_rejects_short_input() {
    assert!(Signature::from_bytes(&vec![1u8; 10]).is_err());
}

#[test]
fn test_random_bytes() {
    let bytes = CryptoUtils::random_bytes(32);
    assert_eq!(bytes.len(), 32);
}

#[test]
fn utils_test_hash_to_field() {
    let data = b"test data";
    let result = CryptoUtils::hash_to_field(data);
    assert!(result.is_ok());
    let field_element = result.unwrap();
    assert_ne!(field_element, Fe::zero());
}

#[test]
fn test_field_serialization() {
    let field = Fe::from_u64(42);
    let bytes = CryptoUtils::serialize_field(&field).unwrap();
    let deserialized = CryptoUtils::deserialize_field(&bytes).unwrap();
    assert_eq!(field, deserialized);
}

#[test]
fn test_commitment() {
    let value = Fe::from_u64(42);
    let randomness = Fe::from_u64(123);
    let commitment = CryptoUtils::commit_to_field(&value, &randomness);
    assert_eq!(commitment.as_bytes().len(), 48);
    let other = CryptoUtils::commit_to_field(&value, &Fe::from_u64(124));
    assert_ne!(commitment, other);
}

#[test]
fn test_range_proof() {
    let value = Fe::from_u64(42);
    let max = Fe::from_u64(100);
    let randomness = Fe::from_u64(123);
    let proof = CryptoUtils::generate_range_proof(&value, &max, &randomness);
    assert!(proof.is_ok());
    assert_eq!(proof.unwrap().len(), 64);
}

#[test]
fn range_proof_rejects_out_of_range() {
    let value = Fe::from_u64(100);
    let max = Fe::from_u64(42);
    let randomness = Fe::from_u64(123);
    assert!(CryptoUtils::generate_range_proof(&value, &max, &randomness).is_err());
}

#[test]
fn test_xor_bytes() {
    let a = vec![1, 2, 3, 4];
    let b = vec![5, 6, 7, 8];
    let result = CryptoUtils::xor_bytes(&a, &b).unwrap();
    assert_eq!(result, vec![4, 4, 4, 12]);
}

#[test]
fn xor_bytes_rejects_length_mismatch() {
    assert!(CryptoUtils::xor_bytes(&[1, 2], &[1, 2, 3]).is_err());
}

#[test]
fn test_encryption_decryption() {
    let scheme = EncryptionScheme::new(128).unwrap();
    let key = scheme.generate_key();
    let data = b"test message";
    let encrypted = scheme.encrypt(data, &key).unwrap();
    let decrypted = scheme.decrypt(&encrypted, &key).unwrap();
    assert_eq!(data.to_vec(), decrypted);
}

#[test]
fn test_invalid_decryption() {
    let scheme = EncryptionScheme::new(128).unwrap();
    let key = scheme.generate_key();
    let wrong_key = scheme.generate_key();
    let data = b"test message";
    let encrypted = scheme.encrypt(data, &key).unwrap();
    let result = scheme.decrypt(&encrypted, &wrong_key);
    assert!(result.is_err());
}

#[test]
fn encryption_hides_plaintext() {
    let scheme = EncryptionScheme::new(128).unwrap();
    let key = scheme.generate_key();
    let data = b"test message";
    let encrypted = scheme.encrypt(data, &key).unwrap();
    assert_ne!(encrypted.ciphertext, data.to_vec());
}

#[test]
fn test_homomorphic_encryption() {
    let scheme = EncryptionScheme::new(128).unwrap();
    let key_manager = KeyManager::new();
    let keypair = key_manager.generate_keypair();
    let value = Fe::from_u64(42);
    let (c1, c2) = scheme.homomorphic_encrypt(&value, &keypair.public_key).unwrap();
    assert_eq!(c1.as_bytes().len(), 48);
    assert_eq!(c2.as_bytes().len(), 48);
}

#[test]
fn test_params_setup() {
    let params = ZKParams::setup(128);
    assert!(params.is_ok());
    let params = params.unwrap();
    assert!(params.verify().unwrap());
}

#[test]
fn params_test_invalid_security_level() {
    let params = ZKParams::setup(64);
    assert!(params.is_err());
}

#[test]
fn test_poly_commit_params() {
    let params = ZKParams::setup(128).unwrap();
    assert!(params.verify_poly_commit().unwrap());
    assert_eq!(params.poly_commit_params.powers_of_tau_g1.len(), params.max_degree + 1);
    assert_eq!(params.poly_commit_params.powers_of_tau_g2.len(), params.max_degree + 1);
}

#[test]
fn test_universal_params() {
    let params = ZKParams::setup(128).unwrap();
    assert!(params.verify_universal().unwrap());
}

#[test]
fn test_proof_serialization() {
    let proof = Proof::new(vec![1, 2, 3, 4]);
    let bytes = proof.to_bytes().unwrap();
    let deserialized = Proof::from_bytes(&bytes).unwrap();
    let original_bytes = proof.to_bytes().unwrap();
    let deserialized_bytes = deserialized.to_bytes().unwrap();
    assert_eq!(original_bytes, deserialized_bytes);
}

#[test]
fn test_batch_verifier() {
    let mut verifier = BatchProofVerifier::new();
    let mut count = 0;
    while count < 5 {
        verifier.add_proof(Proof::new(vec![1, 2, 3]));
        count += 1;
    }
    assert!(verifier.verify_all().unwrap());
}
