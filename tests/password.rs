use minroot_vdf::password::{byte_in_class, ByteClass, PasswordMetrics, PasswordPolicy, PasswordRequest};

fn policy() -> PasswordPolicy {
    PasswordPolicy {
        min_length: 3,
        max_length: 64,
        min_numeric: 2,
        min_uppercase: 2,
        min_lowercase: 2,
        min_special_chars: 1,
    }
}

#[test]
fn metrics_count_each_class() {
    let m = PasswordMetrics::new("Ab1!cD2?é");
    assert_eq!(m.numeric, 2);
    assert_eq!(m.special, 2);
    assert_eq!(m.uppercase, 2);
    assert_eq!(m.lowercase, 2);
    let empty = PasswordMetrics::new("");
    assert_eq!(empty, PasswordMetrics { numeric: 0, special: 0, uppercase: 0, lowercase: 0 });
}

#[test]
fn policy_accepts_a_strong_password() {
    assert!(policy().is_valid("AAbb12!"));
}

#[test]
fn policy_refuses_each_missing_class() {
    assert!(!policy().is_valid("AAbb12"));
    assert!(!policy().is_valid("Abb12!"));
    assert!(!policy().is_valid("AAb12!"));
    assert!(!policy().is_valid("AAbb1!"));
}

#[test]
fn policy_bounds_the_length() {
    let p = PasswordPolicy { min_length: 3, max_length: 4, min_numeric: 0, min_uppercase: 0, min_lowercase: 0, min_special_chars: 0 };
    assert!(!p.is_valid("ab"));
    assert!(p.is_valid("abc"));
    assert!(p.is_valid("abcd"));
    assert!(!p.is_valid("abcde"));
    assert!(p.correct_length("abc"));
    assert!(!p.correct_length("abcde"));
}

#[test]
fn byte_classes_follow_ascii() {
    assert!(byte_in_class(b'0', ByteClass::Digit));
    assert!(!byte_in_class(b'a', ByteClass::Digit));
    assert!(byte_in_class(b'~', ByteClass::Punctuation));
    assert!(!byte_in_class(b' ', ByteClass::Punctuation));
    assert!(byte_in_class(b'Z', ByteClass::Upper));
    assert!(byte_in_class(b'z', ByteClass::Lower));
    for b in 0u8..=255 {
        assert_eq!(byte_in_class(b, ByteClass::Digit), b.is_ascii_digit());
        assert_eq!(byte_in_class(b, ByteClass::Punctuation), b.is_ascii_punctuation());
        assert_eq!(byte_in_class(b, ByteClass::Upper), b.is_ascii_uppercase());
        assert_eq!(byte_in_class(b, ByteClass::Lower), b.is_ascii_lowercase());
    }
}

#[test]
fn request_holds_password_and_salt() {
    let r = PasswordRequest { password: "AAbb12!".to_string(), salt: [7; 32] };
    assert!(policy().is_valid(&r.password));
    assert_eq!(r.clone(), r);
}
