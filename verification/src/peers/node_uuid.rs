//! The 128-bit identifier inside a peer id. Its value is held as a plain
//! integer; its text forms and random generation come from the `uuid` crate.

use vstd::arithmetic::power::pow;
use vstd::prelude::*;


verus! {

/// The lowercase hexadecimal digit for `d`, which is below sixteen.
pub open spec fn hex_digit(d: nat) -> char {
    if d < 10 {
        (48 + d) as char
    } else {
        (87 + d) as char
    }
}

/// The `k`-th of the 32 hexadecimal digits of `value`, most significant first.
pub open spec fn nibble(value: u128, k: int) -> nat {
    ((value as int / pow(16, (31 - k) as nat)) % 16) as nat
}

/// The 32 lowercase hexadecimal digits of `value`, most significant first.
pub open spec fn hex32(value: u128) -> Seq<char> {
    Seq::new(32, |k: int| hex_digit(nibble(value, k)))
}

/// The hyphenated form of a UUID (`8-4-4-4-12` lowercase hexadecimal digits),
/// which is how `uuid::Uuid` displays itself.
pub open spec fn uuid_hyphenated(value: u128) -> Seq<char> {
    let h = hex32(value);
    h.subrange(0, 8) + seq!['-'] + h.subrange(8, 12) + seq!['-'] + h.subrange(12, 16) + seq!['-']
        + h.subrange(16, 20) + seq!['-'] + h.subrange(20, 32)
}

/// The version 4 (random) layout: version nibble `4`, variant bits `10`.
pub open spec fn is_random_v4(value: u128) -> bool {
    &&& (value >> 76u128) & 0xfu128 == 4
    &&& (value >> 62u128) & 0x3u128 == 2
}

/// The value of an ASCII hexadecimal digit of either case.
pub open spec fn hex_value(c: char) -> Option<nat> {
    if '0' <= c && c <= '9' {
        Some((c as int - 48) as nat)
    } else if 'a' <= c && c <= 'f' {
        Some((c as int - 87) as nat)
    } else if 'A' <= c && c <= 'F' {
        Some((c as int - 55) as nat)
    } else {
        None
    }
}

/// The value of a run of hexadecimal digits, most significant first, or
/// `None` when one of the characters is not a hexadecimal digit.
pub open spec fn hex_digits_value(s: Seq<char>) -> Option<nat>
    decreases s.len(),
{
    if s.len() == 0 {
        Some(0)
    } else {
        match (hex_digits_value(s.drop_last()), hex_value(s.last())) {
            (Some(high), Some(low)) => Some(high * 16 + low),
            _ => None,
        }
    }
}

/// The UUID in a hyphenated text of 36 characters: `-` at positions 8, 13,
/// 18 and 23, and 32 hexadecimal digits around them.
pub open spec fn parse_hyphenated(s: Seq<char>) -> Option<u128> {
    if s.len() == 36 && s[8] == '-' && s[13] == '-' && s[18] == '-' && s[23] == '-' {
        match hex_digits_value(
            s.subrange(0, 8) + s.subrange(9, 13) + s.subrange(14, 18) + s.subrange(19, 23)
                + s.subrange(24, 36),
        ) {
            Some(v) => Some(v as u128),
            None => None,
        }
    } else {
        None
    }
}

/// An ASCII letter in lower case; any other character as it is.
pub open spec fn ascii_lowercase(c: char) -> char {
    if 'A' <= c && c <= 'Z' {
        (c as int + 32) as char
    } else {
        c
    }
}

/// The first nine characters are `urn:uuid:`, ignoring ASCII case.
pub open spec fn has_urn_prefix(s: Seq<char>) -> bool {
    &&& s.len() >= 9
    &&& forall|i: int| 0 <= i < 9 ==> ascii_lowercase(#[trigger] s[i]) == seq!['u', 'r', 'n', ':', 'u', 'u', 'i', 'd', ':'][i]
}

/// What `uuid::Uuid::parse_str` gives for a text, as the integer value of
/// the UUID, or `None` when it rejects the text: 32 hexadecimal digits; the
/// hyphenated form; the hyphenated form in braces; or `urn:uuid:` (in any
/// case) and the hyphenated form. Digits may be of either case.
pub open spec fn uuid_parse_result(text: Seq<char>) -> Option<u128> {
    if text.len() == 32 {
        match hex_digits_value(text) {
            Some(v) => Some(v as u128),
            None => None,
        }
    } else if text.len() == 36 {
        parse_hyphenated(text)
    } else if text.len() == 38 && text[0] == '{' && text[37] == '}' {
        parse_hyphenated(text.subrange(1, 37))
    } else if text.len() == 45 && has_urn_prefix(text) {
        parse_hyphenated(text.subrange(9, 45))
    } else {
        None
    }
}

/// Calls `uuid::Uuid::parse_str`. Claimed: the result is the value of the
/// UUID as the function above reads it. The crate dispatches on the byte
/// length of the text; every text it accepts is ASCII, so its character
/// length is its byte length.
#[verifier::external_body]
fn parse_uuid_text(text: &str) -> (r: Option<u128>)
    ensures
        r == uuid_parse_result(text@),
{
    match ::uuid::Uuid::parse_str(text) {
        Ok(u) => Some(u.as_u128()),
        Err(_) => None,
    }
}

proof fn lemma_hex_digit_value(d: nat)
    requires
        d < 16,
    ensures
        hex_value(hex_digit(d)) == Some(d),
{
    if d < 10 {
        assert(((48 + d) as char) as int == 48 + d);
    } else {
        assert(((87 + d) as char) as int == 87 + d);
    }
}

/// The first `j` hexadecimal digits of `value` read back as `value`
/// without its last `32 - j` digits.
proof fn lemma_hex32_prefix_value(value: u128, j: int)
    requires
        0 <= j <= 32,
    ensures
        hex_digits_value(hex32(value).subrange(0, j)) == Some((value as int / pow(16, (32 - j) as nat)) as nat),
    decreases j,
{
    let h = hex32(value);
    vstd::arithmetic::power::lemma_pow_positive(16, (32 - j) as nat);
    if j == 0 {
        assert(h.subrange(0, 0) =~= Seq::<char>::empty());
        assert(pow(16, 32) == 0x1_0000_0000_0000_0000_0000_0000_0000_0000) by {
            reveal_with_fuel(pow, 33);
        }
        vstd::arithmetic::div_mod::lemma_basic_div(value as int, pow(16, 32));
    } else {
        lemma_hex32_prefix_value(value, j - 1);
        let e = (32 - j) as nat;
        let y = value as int / pow(16, e);
        vstd::arithmetic::power::lemma_pow_positive(16, e);
        assert(pow(16, e + 1) == 16 * pow(16, e)) by {
            vstd::arithmetic::power::lemma_pow_adds(16, e, 1);
            vstd::arithmetic::power::lemma_pow1(16);
        }
        assert(value as int / pow(16, (32 - (j - 1)) as nat) == y / 16) by {
            vstd::arithmetic::div_mod::lemma_div_denominator(value as int, pow(16, e), 16);
            assert(((32 - (j - 1)) as nat) == e + 1);
            assert(pow(16, e) * 16 == 16 * pow(16, e)) by (nonlinear_arith);
        }
        vstd::arithmetic::div_mod::lemma_fundamental_div_mod(y, 16);
        vstd::arithmetic::div_mod::lemma_div_pos_is_pos(value as int, pow(16, e));
        let d = (y % 16) as nat;
        assert(nibble(value, j - 1) == d);
        lemma_hex_digit_value(d);
        assert(h.subrange(0, j).drop_last() =~= h.subrange(0, j - 1));
        assert(h.subrange(0, j).last() == hex_digit(d));
    }
}

/// A hyphenated lowercase form, as the crate displays it, parses back to its value.
pub proof fn lemma_hyphenated_parses_back(value: u128)
    ensures
        uuid_parse_result(uuid_hyphenated(value)) == Some(value),
{
    let s = uuid_hyphenated(value);
    let h = hex32(value);
    assert(s.subrange(0, 8) + s.subrange(9, 13) + s.subrange(14, 18) + s.subrange(19, 23)
        + s.subrange(24, 36) =~= h);
    lemma_hex32_prefix_value(value, 32);
    assert(h.subrange(0, 32) =~= h);
    vstd::arithmetic::power::lemma_pow0(16);
}

/// Calls `uuid::Uuid::from_u128` and its `Display`. Claimed: the text is the
/// hyphenated lowercase form of the value, most significant digit first.
#[verifier::external_body]
fn hyphenated_text(value: u128) -> (r: String)
    ensures
        r@ == uuid_hyphenated(value),
{
    ::uuid::Uuid::from_u128(value).to_string()
}

/// Calls `uuid::Uuid::new_v4`. Claimed: whatever random value comes back
/// carries the version 4 layout, which the crate sets by masking.
#[verifier::external_body]
fn random_v4() -> (r: u128)
    ensures
        is_random_v4(r),
{
    ::uuid::Uuid::new_v4().as_u128()
}

/// A value that keeps the version and variant bits of `u` (and the random
/// bits above them) and carries `j` in the random bits below: bits 0 to 61
/// hold the low 62 bits of `j`, bits 64 and 65 its top two.
pub open spec fn spread(u: u128, j: u128) -> u128 {
    (u & 0xffff_ffff_ffff_fffc_c000_0000_0000_0000u128) | (j & 0x3fff_ffff_ffff_ffffu128) | ((j
        >> 62u128) << 64u128)
}

/// `spread` keeps the version and variant of `u`, and tells apart any two
/// `j` below 2^64.
proof fn lemma_spread(u: u128, j: u128, k: u128)
    requires
        j < 0x1_0000_0000_0000_0000u128,
        k < 0x1_0000_0000_0000_0000u128,
    ensures
        (spread(u, j) >> 76u128) & 0xfu128 == (u >> 76u128) & 0xfu128,
        (spread(u, j) >> 62u128) & 0x3u128 == (u >> 62u128) & 0x3u128,
        spread(u, j) == spread(u, k) ==> j == k,
{
    assert((((u & 0xffff_ffff_ffff_fffc_c000_0000_0000_0000u128) | (j & 0x3fff_ffff_ffff_ffffu128) | ((j
        >> 62u128) << 64u128)) >> 76u128) & 0xfu128 == (u >> 76u128) & 0xfu128) by (bit_vector)
        requires
            j < 0x1_0000_0000_0000_0000u128,
    ;
    assert((((u & 0xffff_ffff_ffff_fffc_c000_0000_0000_0000u128) | (j & 0x3fff_ffff_ffff_ffffu128) | ((j
        >> 62u128) << 64u128)) >> 62u128) & 0x3u128 == (u >> 62u128) & 0x3u128) by (bit_vector)
        requires
            j < 0x1_0000_0000_0000_0000u128,
    ;
    assert(((u & 0xffff_ffff_ffff_fffc_c000_0000_0000_0000u128) | (j & 0x3fff_ffff_ffff_ffffu128) | ((j
        >> 62u128) << 64u128)) == ((u & 0xffff_ffff_ffff_fffc_c000_0000_0000_0000u128) | (k
        & 0x3fff_ffff_ffff_ffffu128) | ((k >> 62u128) << 64u128)) ==> j == k) by (bit_vector)
        requires
            j < 0x1_0000_0000_0000_0000u128,
            k < 0x1_0000_0000_0000_0000u128,
    ;
}

/// Among the `taken.len() + 1` values `spread(u, 0)`, `spread(u, 1)`, ...,
/// which are all different, at least one is not in `taken`.
proof fn lemma_some_spread_free(taken: Seq<u128>, u: u128)
    requires
        taken.len() < 0xffff_ffff_ffff_ffff,
    ensures
        exists|j: int| 0 <= j <= taken.len() && !taken.contains(#[trigger] spread(u, j as u128)),
{
    broadcast use vstd::seq_lib::seq_to_set_is_finite;

    let n = taken.len() as int;
    if forall|j: int| 0 <= j <= n ==> taken.contains(#[trigger] spread(u, j as u128)) {
        let cs = Seq::new((n + 1) as nat, |j: int| spread(u, j as u128));
        assert forall|a: int, b: int| 0 <= a < cs.len() && 0 <= b < cs.len() && a != b implies cs[a]
            != cs[b] by {
            lemma_spread(u, a as u128, b as u128);
        }
        assert(cs.no_duplicates());
        cs.unique_seq_to_set();
        taken.lemma_cardinality_of_set();
        assert forall|x: u128| cs.to_set().contains(x) implies taken.to_set().contains(x) by {
            assert(cs.contains(x));
            let j = choose|j: int| 0 <= j < cs.len() && cs[j] == x;
            assert(taken.contains(spread(u, j as u128)));
        }
        vstd::set_lib::lemma_len_subset(cs.to_set(), taken.to_set());
    }
}

/// Whether `v` is one of `taken`.
fn is_taken(taken: &Vec<u128>, v: u128) -> (r: bool)
    ensures
        r == taken@.contains(v),
{
    let n = taken.len();
    let mut i: usize = 0;
    while i < n
        invariant
            i <= n,
            n == taken@.len(),
            forall|k: int| 0 <= k < i ==> taken@[k] != v,
        decreases n - i,
    {
        if taken[i] == v {
            return true;
        }
        i = i + 1;
    }
    false
}

/// A UUID, held as its 128-bit value (big-endian, as `uuid::Uuid::as_u128`).
#[derive(Clone, Copy, Debug, PartialEq, Eq, Hash, Structural)]
pub struct Uuid {
    pub value: u128,
}

impl Uuid {
    pub fn from_u128(value: u128) -> (r: Uuid)
        ensures
            r.value == value,
    {
        Uuid { value }
    }

    pub fn as_u128(&self) -> (r: u128)
        ensures
            r == self.value,
    {
        self.value
    }

    /// A fresh random (version 4) UUID.
    pub fn new_v4() -> (r: Uuid)
        ensures
            is_random_v4(r.value),
    {
        Uuid { value: random_v4() }
    }

    /// A fresh random (version 4) UUID whose value is none of `taken`. The
    /// random draw is kept unless it collides with one of them; then the
    /// first of `spread(draw, 0)`, `spread(draw, 1)`, ... that is not taken
    /// stands in for it, with the draw's version and variant.
    pub fn new_v4_avoiding(taken: &Vec<u128>) -> (r: Uuid)
        requires
            taken@.len() < usize::MAX,
        ensures
            is_random_v4(r.value),
            !taken@.contains(r.value),
    {
        let u = random_v4();
        if !is_taken(taken, u) {
            return Uuid { value: u };
        }
        proof {
            lemma_some_spread_free(taken@, u);
        }
        let n = taken.len();
        let mut j: usize = 0;
        while j <= n
            invariant
                j <= n + 1,
                n == taken@.len(),
                n < usize::MAX,
                is_random_v4(u),
                forall|k: int| 0 <= k < j ==> taken@.contains(#[trigger] spread(u, k as u128)),
                exists|k: int| 0 <= k <= n && !taken@.contains(#[trigger] spread(u, k as u128)),
            decreases n + 1 - j,
        {
            let jj: u128 = j as u128;
            let c: u128 = (u & 0xffff_ffff_ffff_fffc_c000_0000_0000_0000u128) | (jj & 0x3fff_ffff_ffff_ffffu128)
                | ((jj >> 62u128) << 64u128);
            assert(c == spread(u, jj));
            if !is_taken(taken, c) {
                proof {
                    lemma_spread(u, jj, jj);
                }
                return Uuid { value: c };
            }
            j = j + 1;
        }
        proof {
            let k = choose|k: int| 0 <= k <= n && !taken@.contains(#[trigger] spread(u, k as u128));
            assert(taken@.contains(spread(u, k as u128)));
        }
        Uuid { value: u }
    }

    /// Parses any text form that `uuid::Uuid::parse_str` accepts.
    pub fn parse(text: &str) -> (r: Option<Uuid>)
        ensures
            r is Some <==> uuid_parse_result(text@) is Some,
            r matches Some(u) ==> Some(u.value) == uuid_parse_result(text@),
            forall|value: u128| text@ == uuid_hyphenated(value) ==> r == Some(Uuid { value }),
    {
        proof {
            assert forall|value: u128| text@ == uuid_hyphenated(value) implies uuid_parse_result(text@)
                == Some(value) by {
                lemma_hyphenated_parses_back(value);
            }
        }
        match parse_uuid_text(text) {
            Some(value) => Some(Uuid { value }),
            None => None,
        }
    }

    /// The hyphenated lowercase form, e.g. `dc354115-1e98-437f-bfbe-12a34ad0f669`.
    pub fn to_string(&self) -> (r: String)
        ensures
            r@ == uuid_hyphenated(self.value),
    {
        hyphenated_text(self.value)
    }

    /// Appends the hyphenated lowercase form to `out`.
    pub fn push_to(&self, out: &mut String)
        ensures
            final(out)@ == old(out)@ + uuid_hyphenated(self.value),
    {
        let text = hyphenated_text(self.value);
        out.append(text.as_str());
    }
}

} // verus!
