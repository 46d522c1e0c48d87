use vstd::prelude::*;

verus! {

/// Number of letters in the alphabet that the cipher rotates.
const ALPHABET_LEN: u8 = 26;

/// Code of the letter `A`.
const UPPER_A: u8 = 65;

/// Code of the letter `Z`.
const UPPER_Z: u8 = 90;

/// Code of the letter `a`.
const LOWER_A: u8 = 97;

/// Code of the letter `z`.
const LOWER_Z: u8 = 122;

/// Distance from an uppercase letter's code to its lowercase one's.
const CASE_GAP: u8 = 32;

/// The uppercase letter at 0-based position `p` of the alphabet.
pub open spec fn letter_at(p: int) -> char {
    ((65 + p) as u8) as char
}

/// A rotation table for `key`: position `i` holds the letter `(i + key) mod 26`.
pub open spec fn rotation(key: int) -> Seq<char> {
    Seq::new(26, |i: int| letter_at((i + key) % 26))
}

/// The lowercase letter at 0-based position `p` of the alphabet.
pub open spec fn lower_letter_at(p: int) -> char {
    ((97 + p) as u8) as char
}

/// `c` is one of `A` to `Z`.
pub open spec fn is_upper(c: char) -> bool {
    65 <= c as u32 <= 90
}

/// `c` is one of `a` to `z`.
pub open spec fn is_lower(c: char) -> bool {
    97 <= c as u32 <= 122
}

/// `c` with an uppercase ASCII letter turned to lowercase; any other character unchanged.
pub open spec fn to_lower(c: char) -> char {
    if is_upper(c) {
        ((c as u32 + 32) as u8) as char
    } else {
        c
    }
}

/// What the table lookup makes of one character: a letter is replaced by the
/// table's entry at its position, in the letter's case; anything else stays.
pub open spec fn apply_char(c: char, table: Seq<char>) -> char {
    if is_upper(c) {
        table[c as u32 - 65]
    } else if is_lower(c) {
        to_lower(table[c as u32 - 97])
    } else {
        c
    }
}

/// The table lookup applied to each character of `t`.
pub open spec fn apply_table(t: Seq<char>, table: Seq<char>) -> Seq<char> {
    t.map_values(|c: char| apply_char(c, table))
}

/// What a shift by `key` makes of one character: a letter moves `key`
/// places through the alphabet, wrapping around and keeping its case;
/// anything else stays.
pub open spec fn shift_char(c: char, key: int) -> char {
    if is_upper(c) {
        letter_at((c as u32 - 65 + key) % 26)
    } else if is_lower(c) {
        lower_letter_at((c as u32 - 97 + key) % 26)
    } else {
        c
    }
}

/// The shift by `key` applied to each character of `t`.
pub open spec fn shift_text(t: Seq<char>, key: int) -> Seq<char> {
    t.map_values(|c: char| shift_char(c, key))
}

/// Looking each letter up in the rotation table for `key` is the shift by `key`.
pub proof fn lemma_table_lookup_is_shift(t: Seq<char>, key: int)
    ensures
        apply_table(t, rotation(key)) == shift_text(t, key),
{
    assert forall|i: int| 0 <= i < t.len() implies #[trigger] apply_char(t[i], rotation(key))
        == shift_char(t[i], key) by {
        let c = t[i];
        if is_lower(c) {
            let q = (c as u32 - 97 + key) % 26;
            assert(is_upper(letter_at(q)));
        }
    }
    assert(apply_table(t, rotation(key)) =~= shift_text(t, key));
}

/// `c` with an uppercase ASCII letter turned to lowercase.
fn ascii_lower(c: char) -> (r: char)
    ensures
        r == to_lower(c),
{
    let code = c as u32;
    if UPPER_A as u32 <= code && code <= UPPER_Z as u32 {
        ((code as u8) + CASE_GAP) as char
    } else {
        c
    }
}

/// Relies on String::push: the character is appended at the end.
#[verifier::external_body]
fn push_char(s: &mut String, c: char)
    ensures
        final(s)@ == old(s)@.push(c),
{
    s.push(c);
}

/// Two characters with the same code are the same character.
proof fn lemma_same_code(a: char, b: char)
    requires
        a as u32 == b as u32,
    ensures
        a == b,
{
    vstd::utf8::char_u32_cast(a, a as u32);
    vstd::utf8::char_u32_cast(b, b as u32);
}

/// Decrypting with a key undoes encrypting with it: shifting by `key` and then
/// by `-key` gives back the text, for every key and every text.
pub proof fn lemma_decrypt_inverts_encrypt(t: Seq<char>, key: int)
    ensures
        shift_text(shift_text(t, key), -key) == t,
{
    assert forall|i: int| 0 <= i < t.len() implies #[trigger] shift_char(shift_char(t[i], key), -key)
        == t[i] by {
        let c = t[i];
        if is_upper(c) {
            let q = (c as u32 - 65 + key) % 26;
            assert(is_upper(letter_at(q)));
            lemma_same_code(letter_at((q - key) % 26), c);
        } else if is_lower(c) {
            let q = (c as u32 - 97 + key) % 26;
            assert(is_lower(lower_letter_at(q)));
            lemma_same_code(lower_letter_at((q - key) % 26), c);
        }
    }
    assert(shift_text(shift_text(t, key), -key) =~= t);
}

/// A shift keeps the length of the text and the case of every letter: an
/// uppercase letter stays uppercase and a lowercase one lowercase.
pub proof fn lemma_shift_preserves_case(t: Seq<char>, key: int)
    ensures
        shift_text(t, key).len() == t.len(),
        forall|i: int|
            0 <= i < t.len() ==> (is_upper(#[trigger] shift_text(t, key)[i]) <==> is_upper(t[i])),
        forall|i: int|
            0 <= i < t.len() ==> (is_lower(#[trigger] shift_text(t, key)[i]) <==> is_lower(t[i])),
{
    assert forall|i: int| 0 <= i < t.len() implies {
        &&& is_upper(#[trigger] shift_text(t, key)[i]) <==> is_upper(t[i])
        &&& is_lower(shift_text(t, key)[i]) <==> is_lower(t[i])
    } by {
        let c = t[i];
        if is_upper(c) {
            let q = (c as u32 - 65 + key) % 26;
            assert(is_upper(letter_at(q)));
        } else if is_lower(c) {
            let q = (c as u32 - 97 + key) % 26;
            assert(is_lower(lower_letter_at(q)));
        }
    }
}

/// A shift leaves every character outside `a`-`z` and `A`-`Z` where it was.
pub proof fn lemma_shift_keeps_non_letters(t: Seq<char>, key: int)
    ensures
        forall|i: int|
            0 <= i < t.len() && !is_upper(t[i]) && !is_lower(t[i]) ==> #[trigger] shift_text(
                t,
                key,
            )[i] == t[i],
{
}

/// Keys that differ by a whole turn of the alphabet encrypt alike.
pub proof fn lemma_shift_period(t: Seq<char>, key: int)
    ensures
        shift_text(t, key) == shift_text(t, key + 26),
        shift_text(t, key) == shift_text(t, key - 26),
{
    assert(shift_text(t, key) =~= shift_text(t, key + 26));
    assert(shift_text(t, key) =~= shift_text(t, key - 26));
}

/// The key zero leaves every text as it is.
pub proof fn lemma_shift_by_zero(t: Seq<char>)
    ensures
        shift_text(t, 0) == t,
{
    assert forall|i: int| 0 <= i < t.len() implies #[trigger] shift_char(t[i], 0) == t[i] by {
        let c = t[i];
        if is_upper(c) {
            lemma_same_code(letter_at(c as u32 - 65), c);
        } else if is_lower(c) {
            lemma_same_code(lower_letter_at(c as u32 - 97), c);
        }
    }
    assert(shift_text(t, 0) =~= t);
}

/// The rotation tables for `key` and `-key` undo each other: looking a
/// letter up in one and the result in the other gives the letter back.
pub proof fn lemma_rotations_inverse(key: int)
    ensures
        forall|i: int|
            0 <= i < 26 ==> rotation(-key)[#[trigger] rotation(key)[i] as u32 - 65] == letter_at(i),
{
    assert forall|i: int| 0 <= i < 26 implies rotation(-key)[#[trigger] rotation(key)[i] as u32 - 65]
        == letter_at(i) by {
        assert(is_upper(letter_at((i + key) % 26)));
    }
}

/// A cipher instance: the rotation tables that encrypt and decrypt with one key.
pub struct Caesar {
    rotated_encrypt: Vec<char>,
    rotated_decrypt: Vec<char>,
    key: Ghost<int>,
}

impl View for Caesar {
    type V = int;

    /// The key the instance was built with.
    closed spec fn view(&self) -> int {
        self.key@
    }
}

impl Caesar {
    #[verifier::type_invariant]
    spec fn tables_match_key(&self) -> bool {
        &&& self.rotated_encrypt@ == rotation(self.key@)
        &&& self.rotated_decrypt@ == rotation(-self.key@)
    }

    /// Applies the table to each character of `s`: a letter becomes the entry
    /// at its position, in its own case; any other character is kept.
    fn rotate_str(s: &str, rotated_chars: &[char]) -> (r: String)
        requires
            rotated_chars@.len() == 26,
        ensures
            r@ == apply_table(s@, rotated_chars@),
    {
        broadcast use vstd::string::group_string_axioms;

        let mut out = String::new();
        for c in it: s.chars()
            invariant
                rotated_chars@.len() == 26,
                it.seq() == s@,
                out@ == apply_table(s@.take(it.index() as int), rotated_chars@),
        {
            let code = c as u32;
            let d = if UPPER_A as u32 <= code && code <= UPPER_Z as u32 {
                rotated_chars[(code - UPPER_A as u32) as usize]
            } else if LOWER_A as u32 <= code && code <= LOWER_Z as u32 {
                ascii_lower(rotated_chars[(code - LOWER_A as u32) as usize])
            } else {
                c
            };
            assert(d == apply_char(c, rotated_chars@));
            proof {
                let i = it.index() as int;
                assert(c == s@[i]);
                assert(s@.take(i + 1) =~= s@.take(i).push(c));
            }
            push_char(&mut out, d);
            assert(apply_table(s@.take(it.index() + 1), rotated_chars@) =~= out@);
        }
        assert(s@.take(s@.len() as int) =~= s@);
        out
    }

    /// The rotation table for `key`: the letters from position `key mod 26`
    /// to `Z`, followed by those from `A` up to that position.
    fn precalc_rotated(key: i64) -> (r: Vec<char>)
        ensures
            r@ == rotation(key as int),
    {
        let mut offset: i64 = key % ALPHABET_LEN as i64;
        if offset < 0 {
            offset += ALPHABET_LEN as i64;
        }
        let start: u8 = offset as u8;
        let mut table: Vec<char> = Vec::new();
        for p in start..ALPHABET_LEN
            invariant
                0 <= start < 26,
                table.len() == p - start,
                forall|i: int| 0 <= i < table.len() ==> table@[i] == letter_at(start + i),
        {
            table.push((UPPER_A + p) as char);
        }
        for p in 0..start
            invariant
                0 <= start < 26,
                table.len() == 26 - start + p,
                forall|i: int| 0 <= i < 26 - start ==> table@[i] == letter_at(start + i),
                forall|i: int| 26 - start <= i < table.len() ==> table@[i] == letter_at(i - (26 - start)),
        {
            table.push((UPPER_A + p) as char);
        }
        assert(table@ =~= rotation(key as int));
        table
    }

    /// Builds the encryption table for `key` and the decryption table for `-key`.
    pub fn with_key(key: i32) -> (r: Self)
        ensures
            r@ == key as int,
    {
        Caesar {
            rotated_encrypt: Self::precalc_rotated(key as i64),
            rotated_decrypt: Self::precalc_rotated(-(key as i64)),
            key: Ghost(key as int),
        }
    }

    /// Shifts every letter of `s` forward by the key.
    pub fn encrypt(&self, s: &str) -> (r: String)
        ensures
            r@ == shift_text(s@, self@),
    {
        proof {
            use_type_invariant(self);
            lemma_table_lookup_is_shift(s@, self@);
        }
        Self::rotate_str(s, self.rotated_encrypt.as_slice())
    }

    /// Shifts every letter of `s` back by the key.
    pub fn decrypt(&self, s: &str) -> (r: String)
        ensures
            r@ == shift_text(s@, -self@),
    {
        proof {
            use_type_invariant(self);
            lemma_table_lookup_is_shift(s@, -self@);
        }
        Self::rotate_str(s, self.rotated_decrypt.as_slice())
    }
}

} // verus!
