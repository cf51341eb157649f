use bastionai::artifact::Artifact;
use bastionai::sized_objects::SizedObjectsBytes;
use ring::hmac;

fn tag(secret: &[u8], msg: &[u8]) -> Vec<u8> {
    let key = hmac::Key::new(hmac::HMAC_SHA256, secret);
    hmac::sign(&key, msg).as_ref().to_vec()
}

#[test]
fn new_keeps_data_description_and_secret() {
    let a = Artifact::new(5u32, String::from("my dataset"), b"secret");
    assert_eq!(a.data, 5);
    assert_eq!(a.description, "my dataset");
    assert_eq!(a.secret, b"secret".to_vec());
}

#[test]
fn verify_accepts_the_hmac_tag() {
    let a = Artifact::new((), String::new(), b"key");
    let t = tag(b"key", b"message");
    assert!(a.verify(b"message", &t));
}

#[test]
fn verify_known_hmac_sha256_vector() {
    // RFC 4231, test case 2.
    let a = Artifact::new((), String::new(), b"Jefe");
    let expected: [u8; 32] = [
        0x5b, 0xdc, 0xc1, 0x46, 0xbf, 0x60, 0x75, 0x4e, 0x6a, 0x04, 0x24, 0x26, 0x08, 0x95, 0x75,
        0xc7, 0x5a, 0x00, 0x3f, 0x08, 0x9d, 0x27, 0x39, 0x83, 0x9d, 0xec, 0x58, 0xb9, 0x64, 0xec,
        0x38, 0x43,
    ];
    assert!(a.verify(b"what do ya want for nothing?", &expected));
}

#[test]
fn verify_rejects_wrong_tag_message_or_key() {
    let a = Artifact::new((), String::new(), b"key");
    let mut t = tag(b"key", b"message");
    assert!(!a.verify(b"other message", &t));
    assert!(!a.verify(b"message", &tag(b"other key", b"message")));
    assert!(!a.verify(b"message", &t[..16]));
    assert!(!a.verify(b"message", b"message"));
    t[0] ^= 1;
    assert!(!a.verify(b"message", &t));
}

#[test]
fn serialize_converts_data_and_keeps_the_rest() {
    let a = Artifact::new(vec![1u8, 2, 3], String::from("d"), b"s");
    let s = a
        .serialize(|v: &Vec<u8>| -> Result<SizedObjectsBytes, String> {
            let mut b = SizedObjectsBytes::new();
            b.append_back(v.clone());
            Ok(b)
        })
        .unwrap();
    assert_eq!(s.data.get(), &vec![3, 0, 0, 0, 0, 0, 0, 0, 1, 2, 3]);
    assert_eq!(s.description, "d");
    assert_eq!(s.secret, b"s".to_vec());
    assert!(s.verify(b"m", &tag(b"s", b"m")));
}

#[test]
fn serialize_reports_the_conversion_error() {
    let a = Artifact::new(0u8, String::from("d"), b"s");
    let r = a.serialize(|_: &u8| -> Result<SizedObjectsBytes, String> { Err(String::from("boom")) });
    assert_eq!(r.err(), Some(String::from("boom")));
}

#[test]
fn deserialize_rebuilds_data_and_keeps_the_rest() {
    let mut b = SizedObjectsBytes::new();
    b.append_back(vec![9, 9]);
    let a = Artifact::new(b, String::from("model"), b"k");
    let d = a
        .deserialize(|mut b: SizedObjectsBytes| -> Result<Vec<u8>, String> {
            b.next().ok_or(String::from("Invalid data, expected at least one object in stream."))
        })
        .unwrap();
    assert_eq!(d.data, vec![9, 9]);
    assert_eq!(d.description, "model");
    assert_eq!(d.secret, b"k".to_vec());
}

#[test]
fn deserialize_reports_the_conversion_error() {
    let a = Artifact::new(SizedObjectsBytes::new(), String::from("model"), b"k");
    let r = a.deserialize(|mut b: SizedObjectsBytes| -> Result<Vec<u8>, String> {
        b.next().ok_or(String::from("Invalid data, expected at least one object in stream."))
    });
    assert_eq!(r.err(), Some(String::from("Invalid data, expected at least one object in stream.")));
}

#[test]
fn verify_rejects_tags_of_other_lengths() {
    let a = Artifact::new((), String::new(), b"key");
    let t = tag(b"key", b"message");
    let mut longer = t.clone();
    longer.push(0);
    assert!(!a.verify(b"message", &longer));
    assert!(!a.verify(b"message", &[]));
    assert_eq!(t.len(), 32);
}
