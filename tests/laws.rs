use caesar::Caesar;

const SAMPLE: &str = "Hello, World! 0123 xyz ABC ÄéЗ\t\n~";

#[test]
fn decrypt_undoes_encrypt_for_many_keys() {
    for key in [-1000, -53, -27, -26, -25, -1, 0, 1, 13, 25, 26, 27, 99, 1_000_003] {
        let caesar = Caesar::with_key(key);
        assert_eq!(SAMPLE, caesar.decrypt(&caesar.encrypt(SAMPLE)));
        assert_eq!(SAMPLE, caesar.encrypt(&caesar.decrypt(SAMPLE)));
    }
}

#[test]
fn extreme_keys_round_trip() {
    for key in [i32::MIN, i32::MIN + 1, i32::MAX, i32::MAX - 1] {
        let caesar = Caesar::with_key(key);
        assert_eq!(SAMPLE, caesar.decrypt(&caesar.encrypt(SAMPLE)));
    }
}

#[test]
fn extreme_keys_shift_exactly() {
    // i32::MIN = -2147483648 = -(26 * 82595525) + 2, so it shifts by 2.
    assert_eq!("CDab", Caesar::with_key(i32::MIN).encrypt("AByz"));
    // i32::MAX = 2147483647 = 26 * 82595524 + 23, so it shifts by 23.
    assert_eq!("XYvw", Caesar::with_key(i32::MAX).encrypt("AByz"));
    assert_eq!("AByz", Caesar::with_key(i32::MIN).decrypt("CDab"));
}

#[test]
fn case_is_kept() {
    let caesar = Caesar::with_key(7);
    let out = caesar.encrypt(SAMPLE);
    assert_eq!(SAMPLE.chars().count(), out.chars().count());
    for (a, b) in SAMPLE.chars().zip(out.chars()) {
        assert_eq!(a.is_ascii_uppercase(), b.is_ascii_uppercase());
        assert_eq!(a.is_ascii_lowercase(), b.is_ascii_lowercase());
    }
}

#[test]
fn non_letters_pass_through() {
    let caesar = Caesar::with_key(11);
    let text = "0123456789 !?.,;:()[]{}\t\r\n ÄéЗ漢字🙂";
    assert_eq!(text, caesar.encrypt(text));
    assert_eq!(text, caesar.decrypt(text));
}

#[test]
fn keys_a_turn_apart_agree() {
    for key in [-40, -3, 0, 5, 25, 70] {
        let base = Caesar::with_key(key).encrypt(SAMPLE);
        assert_eq!(base, Caesar::with_key(key + 26).encrypt(SAMPLE));
        assert_eq!(base, Caesar::with_key(key - 26).encrypt(SAMPLE));
    }
}

#[test]
fn zero_key_is_identity() {
    let caesar = Caesar::with_key(0);
    assert_eq!(SAMPLE, caesar.encrypt(SAMPLE));
    assert_eq!(SAMPLE, caesar.decrypt(SAMPLE));
}

#[test]
fn empty_text_stays_empty() {
    let caesar = Caesar::with_key(5);
    assert_eq!("", caesar.encrypt(""));
    assert_eq!("", caesar.decrypt(""));
}

#[test]
fn whole_alphabet_rotates() {
    let caesar = Caesar::with_key(13);
    assert_eq!(
        "NOPQRSTUVWXYZABCDEFGHIJKLM",
        caesar.encrypt("ABCDEFGHIJKLMNOPQRSTUVWXYZ")
    );
    assert_eq!(
        "nopqrstuvwxyzabcdefghijklm",
        caesar.encrypt("abcdefghijklmnopqrstuvwxyz")
    );
}

#[test]
fn lowercase_wraps_at_both_ends() {
    assert_eq!("abc", Caesar::with_key(3).encrypt("xyz"));
    assert_eq!("xyz", Caesar::with_key(3).decrypt("abc"));
    assert_eq!("zA", Caesar::with_key(-1).encrypt("aB"));
}

#[test]
fn full_period_decrypt_is_noop() {
    let caesar = Caesar::with_key(26);
    assert_eq!("ABC", caesar.encrypt("ABC"));
    assert_eq!("ABC", caesar.decrypt("ABC"));
}
