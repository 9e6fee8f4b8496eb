use vstd::prelude::*;

verus! {

/// Whether `c` is a lowercase hexadecimal digit.
pub open spec fn is_lower_hex_digit(c: char) -> bool {
    ('0' <= c && c <= '9') || ('a' <= c && c <= 'f')
}

/// Whether `s` is a UUID in its hyphenated lowercase text form: 36 characters,
/// hyphens at positions 8, 13, 18 and 23, lowercase hex digits elsewhere.
pub open spec fn is_hyphenated_uuid(s: Seq<char>) -> bool {
    &&& s.len() == 36
    &&& forall|i: int|
        0 <= i < 36 ==> if i == 8 || i == 13 || i == 18 || i == 23 {
            #[trigger] s[i] == '-'
        } else {
            is_lower_hex_digit(s[i])
        }
}

/// The lowercase hexadecimal digit of `n`, for `n` below 16.
pub open spec fn hex_digit(n: int) -> char {
    seq!['0', '1', '2', '3', '4', '5', '6', '7', '8', '9', 'a', 'b', 'c', 'd', 'e', 'f'][n]
}

/// Byte `i` of a random (version 4) UUID made from `b`: the high half of
/// byte 6 is the version 4, and the two top bits of byte 8 are `10`, the
/// RFC 4122 variant.
pub open spec fn v4_byte(b: Seq<u8>, i: int) -> int {
    if i == 6 {
        64 + b[6] % 16
    } else if i == 8 {
        128 + b[8] % 64
    } else {
        b[i] as int
    }
}

/// How many hyphens stand before position `p` of the hyphenated form.
pub open spec fn hyphens_before(p: int) -> int {
    if p < 8 {
        0
    } else if p < 13 {
        1
    } else if p < 18 {
        2
    } else if p < 23 {
        3
    } else {
        4
    }
}

/// Hex digit `h` (0 to 31) of the random UUID made from `b`, high half of
/// each byte first.
pub open spec fn v4_nibble(b: Seq<u8>, h: int) -> int {
    if h % 2 == 0 {
        v4_byte(b, h / 2) / 16
    } else {
        v4_byte(b, h / 2) % 16
    }
}

/// The hyphenated lowercase text of the random UUID made from the 16 bytes
/// `b`.
pub open spec fn v4_text(b: Seq<u8>) -> Seq<char> {
    Seq::new(
        36,
        |p: int|
            if p == 8 || p == 13 || p == 18 || p == 23 {
                '-'
            } else {
                hex_digit(v4_nibble(b, p - hyphens_before(p)))
            },
    )
}

/// The name made from 16 random bytes, used for temporary directories and
/// files: the random UUID built from them, in its hyphenated lowercase form.
///
/// Relies on uuid::Builder::from_random_bytes, which keeps the bytes but for
/// the version bits of byte 6 and the variant bits of byte 8, and on the
/// `Display` of uuid::Uuid, which writes the hyphenated lowercase form.
#[verifier::external_body]
pub fn get_random_name(random_bytes: [u8; 16]) -> (r: String)
    ensures
        r@ == v4_text(random_bytes@),
{
    uuid::Builder::from_random_bytes(random_bytes).into_uuid().to_string()
}

proof fn lemma_hex_digit(n: int)
    requires
        0 <= n < 16,
    ensures
        is_lower_hex_digit(hex_digit(n)),
{
    let digits = seq!['0', '1', '2', '3', '4', '5', '6', '7', '8', '9', 'a', 'b', 'c', 'd', 'e', 'f'];
    assert(hex_digit(n) == digits[n]);
}

/// A name made from any 16 bytes is a hyphenated UUID whose version digit
/// is `4` and whose variant digit is one of `8`, `9`, `a` and `b`.
pub proof fn lemma_random_name_form(b: Seq<u8>)
    requires
        b.len() == 16,
    ensures
        is_hyphenated_uuid(v4_text(b)),
        v4_text(b)[14] == '4',
        v4_text(b)[19] == '8' || v4_text(b)[19] == '9' || v4_text(b)[19] == 'a' || v4_text(
            b,
        )[19] == 'b',
{
    let s = v4_text(b);
    assert forall|i: int| 0 <= i < 36 implies if i == 8 || i == 13 || i == 18 || i == 23 {
        #[trigger] s[i] == '-'
    } else {
        is_lower_hex_digit(s[i])
    } by {
        if !(i == 8 || i == 13 || i == 18 || i == 23) {
            let h = i - hyphens_before(i);
            assert(0 <= v4_byte(b, h / 2) < 256);
            lemma_hex_digit(v4_nibble(b, h));
        }
    }
    let digits = seq!['0', '1', '2', '3', '4', '5', '6', '7', '8', '9', 'a', 'b', 'c', 'd', 'e', 'f'];
    assert(v4_nibble(b, 12) == 4);
    assert(s[14] == digits[4]);
    let v = v4_nibble(b, 16);
    assert(8 <= v < 12);
    assert(s[19] == digits[v]);
}

/// The path of the directory `name` inside the directory `root`.
pub fn temp_dir_path(root: &str, name: &str) -> (r: String)
    ensures
        r@ == root@ + seq!['/'] + name@,
{
    let mut r = String::from_str(root);
    r.append("/");
    r.append(name);
    proof {
        reveal_strlit("/");
    }
    r
}

/// The path of a new temporary directory inside `root`, named after the
/// random UUID made from `random_bytes`.
pub fn new_temp_dir_path(root: &str, random_bytes: [u8; 16]) -> (r: String)
    ensures
        r@ == root@ + seq!['/'] + v4_text(random_bytes@),
{
    let name = get_random_name(random_bytes);
    temp_dir_path(root, name.as_str())
}

} // verus!
