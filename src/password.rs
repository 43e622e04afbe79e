//! A password policy: bounds on the length and least counts of ASCII digits,
//! punctuation, upper-case and lower-case letters.
use vstd::prelude::*;
use vstd::string::StringSliceAdditionalSpecFns;

verus! {

/// A password and the salt it is hashed with.
#[derive(Clone, Debug, PartialEq, Eq)]
pub struct PasswordRequest {
    pub password: String,
    pub salt: [u8; 32],
}

/// The classes of ASCII bytes that a policy counts.
#[derive(Clone, Copy, Debug, PartialEq, Eq, Structural)]
pub enum ByteClass {
    Digit,
    Punctuation,
    Upper,
    Lower,
}

/// Whether byte `b` is in `class`: the ASCII ranges of `u8::is_ascii_digit`,
/// `is_ascii_punctuation`, `is_ascii_uppercase` and `is_ascii_lowercase`.
pub open spec fn in_class(b: u8, class: ByteClass) -> bool {
    match class {
        ByteClass::Digit => 0x30 <= b <= 0x39,
        ByteClass::Punctuation => (0x21 <= b <= 0x2f) || (0x3a <= b <= 0x40) || (0x5b <= b <= 0x60)
            || (0x7b <= b <= 0x7e),
        ByteClass::Upper => 0x41 <= b <= 0x5a,
        ByteClass::Lower => 0x61 <= b <= 0x7a,
    }
}

/// The number of bytes of `s` in `class`. A byte of a multi-byte character is
/// never ASCII, so this is also the number of characters in `class`.
pub open spec fn count_class(s: Seq<u8>, class: ByteClass) -> nat
    decreases s.len(),
{
    if s.len() == 0 {
        0
    } else {
        count_class(s.drop_last(), class) + if in_class(s.last(), class) {
            1nat
        } else {
            0nat
        }
    }
}

proof fn lemma_count_class_bound(s: Seq<u8>, class: ByteClass)
    ensures
        count_class(s, class) <= s.len(),
    decreases s.len(),
{
    if s.len() > 0 {
        lemma_count_class_bound(s.drop_last(), class);
    }
}

/// Whether `b` is in `class`.
pub fn byte_in_class(b: u8, class: ByteClass) -> (r: bool)
    ensures
        r == in_class(b, class),
{
    match class {
        ByteClass::Digit => 0x30 <= b && b <= 0x39,
        ByteClass::Punctuation => (0x21 <= b && b <= 0x2f) || (0x3a <= b && b <= 0x40) || (0x5b <= b
            && b <= 0x60) || (0x7b <= b && b <= 0x7e),
        ByteClass::Upper => 0x41 <= b && b <= 0x5a,
        ByteClass::Lower => 0x61 <= b && b <= 0x7a,
    }
}

/// The counts of each class in a password.
#[derive(Clone, Copy, Debug, PartialEq, Eq, Structural)]
pub struct PasswordMetrics {
    pub numeric: usize,
    pub special: usize,
    pub uppercase: usize,
    pub lowercase: usize,
}

impl PasswordMetrics {
    pub fn new(password: &str) -> (r: Self)
        ensures
            r.numeric == count_class(password.spec_bytes(), ByteClass::Digit),
            r.special == count_class(password.spec_bytes(), ByteClass::Punctuation),
            r.uppercase == count_class(password.spec_bytes(), ByteClass::Upper),
            r.lowercase == count_class(password.spec_bytes(), ByteClass::Lower),
    {
        let bytes = password.as_bytes();
        let mut numeric: usize = 0;
        let mut special: usize = 0;
        let mut uppercase: usize = 0;
        let mut lowercase: usize = 0;
        let mut k: usize = 0;
        proof {
            assert(bytes@.subrange(0, 0) =~= Seq::<u8>::empty());
        }
        while k < bytes.len()
            invariant
                bytes@ == password.spec_bytes(),
                k <= bytes@.len(),
                numeric == count_class(bytes@.subrange(0, k as int), ByteClass::Digit),
                special == count_class(bytes@.subrange(0, k as int), ByteClass::Punctuation),
                uppercase == count_class(bytes@.subrange(0, k as int), ByteClass::Upper),
                lowercase == count_class(bytes@.subrange(0, k as int), ByteClass::Lower),
            decreases bytes@.len() - k,
        {
            let ch = bytes[k];
            let ghost next = bytes@.subrange(0, k + 1);
            proof {
                assert(next.drop_last() =~= bytes@.subrange(0, k as int));
                assert(next.last() == ch);
                lemma_count_class_bound(bytes@.subrange(0, k as int), ByteClass::Digit);
                lemma_count_class_bound(bytes@.subrange(0, k as int), ByteClass::Punctuation);
                lemma_count_class_bound(bytes@.subrange(0, k as int), ByteClass::Upper);
                lemma_count_class_bound(bytes@.subrange(0, k as int), ByteClass::Lower);
            }
            if byte_in_class(ch, ByteClass::Digit) {
                numeric += 1;
            }
            if byte_in_class(ch, ByteClass::Punctuation) {
                special += 1;
            }
            if byte_in_class(ch, ByteClass::Upper) {
                uppercase += 1;
            }
            if byte_in_class(ch, ByteClass::Lower) {
                lowercase += 1;
            }
            k += 1;
        }
        proof {
            assert(bytes@.subrange(0, bytes@.len() as int) =~= bytes@);
        }
        PasswordMetrics { numeric, special, uppercase, lowercase }
    }
}

/// Bounds that a password must meet.
#[derive(Clone, Copy, Debug, PartialEq, Eq, Structural)]
pub struct PasswordPolicy {
    pub min_length: usize,
    pub max_length: usize,
    pub min_uppercase: usize,
    pub min_lowercase: usize,
    pub min_numeric: usize,
    pub min_special_chars: usize,
}

impl PasswordPolicy {
    /// Whether `pw` is valid under this policy.
    pub open spec fn accepts(&self, pw: Seq<u8>) -> bool {
        &&& self.min_length <= pw.len() <= self.max_length
        &&& count_class(pw, ByteClass::Digit) >= self.min_numeric
        &&& count_class(pw, ByteClass::Upper) >= self.min_uppercase
        &&& count_class(pw, ByteClass::Lower) >= self.min_lowercase
        &&& count_class(pw, ByteClass::Punctuation) >= self.min_special_chars
    }

    pub fn is_valid(&self, pw: &str) -> (r: bool)
        requires
            self.min_length >= 1,
            self.max_length < usize::MAX,
        ensures
            r == self.accepts(pw.spec_bytes()),
    {
        let metrics = PasswordMetrics::new(pw);
        self.correct_length(pw) && (metrics.numeric >= self.min_numeric) && (metrics.uppercase
            >= self.min_uppercase) && (metrics.lowercase >= self.min_lowercase) && (metrics.special
            >= self.min_special_chars)
    }

    /// Whether the length of `password`, in bytes, is within the bounds.
    pub fn correct_length(&self, password: &str) -> (r: bool)
        requires
            self.min_length >= 1,
            self.max_length < usize::MAX,
        ensures
            r == (self.min_length <= password.spec_bytes().len() <= self.max_length),
    {
        let len = password.as_bytes().len();
        len > (self.min_length - 1) && len < (self.max_length + 1)
    }
}

} // verus!
