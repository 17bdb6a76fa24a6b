//! Small shared helpers: digests, hexadecimal and decimal notation, short
//! identifiers.

use vstd::prelude::*;

use vstd::arithmetic::div_mod::lemma_div_denominator;

use crate::text::{decimal, decimal_text, hex_char, hex_digit, same_ignoring_case, same_letter};

verus! {

/// The SHA-256 digest of `data`, as the `sha2` crate computes it.
pub uninterp spec fn sha256_digest(data: Seq<u8>) -> Seq<u8>;

/// `sha2::Sha256::digest`: the digest of `data`, always 32 bytes and a
/// function of `data` alone.
#[verifier::external_body]
pub(crate) fn sha256(data: &[u8]) -> (digest: Vec<u8>)
    ensures
        digest@ == sha256_digest(data@),
        digest@.len() == 32,
{
    <sha2::Sha256 as sha2::Digest>::digest(data).to_vec()
}

/// Identifiers of sessions, actors, operations and records: 128 bits.
pub type Uuid = u128;

/// The marks of a random identifier: version 4 of the RFC 9562 variant.
pub open spec fn is_random(id: Uuid) -> bool {
    id / 0x10000000000000000000 % 16 == 4 && id / 0x4000000000000000 % 4 == 2
}

/// `Uuid::new_v4`: a random identifier. Nothing is promised of its value but
/// that it is marked as version 4 of the RFC 9562 variant; two calls may
/// return anything else.
#[verifier::external_body]
pub(crate) fn new_uuid() -> (id: Uuid)
    ensures
        is_random(id),
{
    uuid::Uuid::new_v4().as_u128()
}

/// Whether a text is one of an identifier's notations, in letters of either
/// case: its digits alone, in five groups, in braces, or as a URN.
pub open spec fn is_notation(s: Seq<char>, id: Uuid) -> bool {
    ||| same_ignoring_case(s, hex_number(id as nat, 32))
    ||| same_ignoring_case(s, uuid_form(id))
    ||| same_ignoring_case(s, "{"@ + uuid_form(id) + "}"@)
    ||| same_ignoring_case(s, "urn:uuid:"@ + uuid_form(id))
}

/// The identifier a text stands for.
pub open spec fn parsed_uuid(s: Seq<char>) -> Option<Uuid> {
    if exists|id: Uuid| #[trigger] is_notation(s, id) {
        Some(choose|id: Uuid| #[trigger] is_notation(s, id))
    } else {
        None
    }
}

/// `Uuid::parse_str`: the one identifier of which `s` is a notation, and
/// nothing where there is none.
#[verifier::external_body]
pub(crate) fn parse_uuid(s: &str) -> (id: Option<Uuid>)
    ensures
        id == parsed_uuid(s@),
{
    match uuid::Uuid::parse_str(s) {
        Ok(id) => Some(id.as_u128()),
        Err(_) => None,
    }
}

/// Bytes in lower-case hexadecimal, two digits each.
pub open spec fn hex_of(bytes: Seq<u8>) -> Seq<char>
    decreases bytes.len(),
{
    if bytes.len() == 0 {
        Seq::empty()
    } else {
        hex_of(bytes.drop_last()).push(hex_digit(bytes.last() as int / 16)).push(
            hex_digit(bytes.last() as int % 16),
        )
    }
}

pub fn hex(bytes: &[u8]) -> (s: String)
    ensures
        s@ == hex_of(bytes@),
{
    let mut out = String::new();
    let mut i: usize = 0;
    while i < bytes.len()
        invariant
            i <= bytes@.len(),
            out@ == hex_of(bytes@.take(i as int)),
        decreases bytes@.len() - i,
    {
        let b: u8 = bytes[i];
        out.push(hex_char(b / 16));
        out.push(hex_char(b % 16));
        proof {
            assert(bytes@.take(i + 1).drop_last() =~= bytes@.take(i as int));
        }
        i = i + 1;
    }
    proof {
        assert(bytes@.take(bytes@.len() as int) =~= bytes@);
    }
    out
}

/// The content address of some bytes.
pub open spec fn content_hash(data: Seq<u8>) -> Seq<char> {
    hex_of(sha256_digest(data))
}

/// Lower-case hexadecimal SHA-256 over exactly these bytes.
pub fn sha256_hex(data: &[u8]) -> (s: String)
    ensures
        s@ == content_hash(data@),
        s@.len() == 64,
{
    let digest = sha256(data);
    let s = hex(digest.as_slice());
    proof {
        lemma_hex_of(digest@);
    }
    s
}

/// Hexadecimal is two digits per byte, and nothing but digits.
pub proof fn lemma_hex_of(bytes: Seq<u8>)
    ensures
        hex_of(bytes).len() == 2 * bytes.len(),
        forall|i: int| 0 <= i < hex_of(bytes).len() ==> is_hex_digit(#[trigger] hex_of(bytes)[i]),
    decreases bytes.len(),
{
    if bytes.len() > 0 {
        lemma_hex_of(bytes.drop_last());
        reveal_strlit("0123456789abcdef");
    }
}

/// Different bytes have different hexadecimal notations.
pub proof fn hex_is_injective(a: Seq<u8>, b: Seq<u8>)
    requires
        hex_of(a) == hex_of(b),
    ensures
        a == b,
    decreases a.len(),
{
    lemma_hex_of(a);
    lemma_hex_of(b);
    if a.len() > 0 {
        let x = hex_of(a);
        let y = hex_of(b);
        reveal_strlit("0123456789abcdef");
        assert(x.drop_last().drop_last() =~= hex_of(a.drop_last()));
        assert(y.drop_last().drop_last() =~= hex_of(b.drop_last()));
        assert(x[x.len() - 1] == hex_digit(a.last() as int % 16));
        assert(y[y.len() - 1] == hex_digit(b.last() as int % 16));
        assert(x[x.len() - 2] == hex_digit(a.last() as int / 16));
        assert(y[y.len() - 2] == hex_digit(b.last() as int / 16));
        assert(a.last() == b.last());
        hex_is_injective(a.drop_last(), b.drop_last());
        assert(a =~= a.drop_last().push(a.last()));
        assert(b =~= b.drop_last().push(b.last()));
    } else {
        assert(a =~= b);
    }
}

pub open spec fn is_hex_digit(c: char) -> bool {
    '0' <= c <= '9' || 'a' <= c <= 'f'
}

pub fn hex_digit_char(c: char) -> (yes: bool)
    ensures
        yes == is_hex_digit(c),
{
    ('0' <= c && c <= '9') || ('a' <= c && c <= 'f')
}

/// The last `width` hexadecimal digits of a number, padded with zeros.
pub open spec fn hex_number(n: nat, width: nat) -> Seq<char>
    decreases width,
{
    if width == 0 {
        Seq::empty()
    } else {
        hex_number(n / 16, (width - 1) as nat).push(hex_digit((n % 16) as int))
    }
}

pub fn hex_number_text(n: u128, width: usize) -> (s: String)
    ensures
        s@ == hex_number(n as nat, width as nat),
    decreases width,
{
    if width == 0 {
        String::new()
    } else {
        let mut s = hex_number_text(n / 16, width - 1);
        s.push(hex_char((n % 16) as u8));
        s
    }
}

/// An identifier in the usual five groups.
pub open spec fn uuid_form(id: Uuid) -> Seq<char> {
    hex_number(id as nat / 0x1000000000000000000000000, 8) + "-"@ + hex_number(
        id as nat / 0x100000000000000000000,
        4,
    ) + "-"@ + hex_number(id as nat / 0x10000000000000000, 4) + "-"@ + hex_number(
        id as nat / 0x1000000000000,
        4,
    ) + "-"@ + hex_number(id as nat, 12)
}

pub fn uuid_text(id: Uuid) -> (s: String)
    ensures
        s@ == uuid_form(id),
{
    let mut s = hex_number_text(id / 0x1000000000000000000000000, 8);
    s.push_str("-");
    s.push_str(hex_number_text(id / 0x100000000000000000000, 4).as_str());
    s.push_str("-");
    s.push_str(hex_number_text(id / 0x10000000000000000, 4).as_str());
    s.push_str("-");
    s.push_str(hex_number_text(id / 0x1000000000000, 4).as_str());
    s.push_str("-");
    s.push_str(hex_number_text(id, 12).as_str());
    s
}

/// The upper-case form of a lower-case hexadecimal digit.
pub open spec fn upper_hex(c: char) -> char {
    match c {
        'a' => 'A',
        'b' => 'B',
        'c' => 'C',
        'd' => 'D',
        'e' => 'E',
        'f' => 'F',
        _ => c,
    }
}

pub fn upper_hex_char(c: char) -> (u: char)
    ensures
        u == upper_hex(c),
{
    match c {
        'a' => 'A',
        'b' => 'B',
        'c' => 'C',
        'd' => 'D',
        'e' => 'E',
        'f' => 'F',
        _ => c,
    }
}

/// What a person types for a record: its kind, then the first four digits of
/// its identifier in upper case.
pub open spec fn short_form(prefix: char, id: Uuid) -> Seq<char> {
    seq![prefix, '-'] + hex_number(id as nat / 0x10000000000000000000000000000, 4).map_values(
        |c: char| upper_hex(c),
    )
}

/// Hexadecimal digits in upper case.
pub fn upper_text(t: &str) -> (s: String)
    ensures
        s@ == t@.map_values(|c: char| upper_hex(c)),
{
    let digits = crate::text::chars_of(t);
    let ghost all = t@.map_values(|c: char| upper_hex(c));
    let mut s = String::new();
    let mut i: usize = 0;
    proof {
        assert(s@ =~= all.take(0));
    }
    while i < digits.len()
        invariant
            digits@ == t@,
            all == t@.map_values(|c: char| upper_hex(c)),
            i <= digits@.len(),
            s@ == all.take(i as int),
        decreases digits@.len() - i,
    {
        s.push(upper_hex_char(digits[i]));
        proof {
            assert(all.take(i + 1) =~= all.take(i as int).push(upper_hex(digits@[i as int])));
        }
        i = i + 1;
    }
    proof {
        assert(all.take(i as int) =~= all);
    }
    s
}

pub fn short_id(prefix: char, id: Uuid) -> (s: String)
    ensures
        s@ == short_form(prefix, id),
{
    let head = hex_number_text(id / 0x10000000000000000000000000000, 4);
    let mut s = String::new();
    s.push(prefix);
    s.push('-');
    s.push_str(upper_text(head.as_str()).as_str());
    proof {
        assert(s@ =~= short_form(prefix, id));
    }
    s
}

/// How many characters of a Git object name a message shows.
pub const SHORT_OID: usize = 7;

/// The beginning of a Git object name, as messages show it.
pub open spec fn oid_head(oid: Seq<char>) -> Seq<char> {
    if oid.len() <= SHORT_OID {
        oid
    } else {
        oid.take(SHORT_OID as int)
    }
}

pub fn short_oid(oid: &str) -> (s: String)
    ensures
        s@ == oid_head(oid@),
{
    let chars = crate::text::chars_of(oid);
    let to: usize = if chars.len() <= SHORT_OID {
        chars.len()
    } else {
        SHORT_OID
    };
    let s = crate::text::text_of(&chars, 0, to);
    proof {
        assert(s@ =~= oid_head(oid@));
    }
    s
}

/// A revision number as messages show it.
pub open spec fn revision_form(revision: u64) -> Seq<char> {
    "r"@ + decimal(revision as nat)
}

pub fn fmt_revision(revision: u64) -> (s: String)
    ensures
        s@ == revision_form(revision),
{
    let mut s = "r".to_owned();
    s.push_str(decimal_text(revision).as_str());
    s
}

/// A size in the largest binary unit that leaves at least one whole unit,
/// with one decimal rounded down.
pub open spec fn size_form(bytes: u64) -> Seq<char> {
    if bytes < 0x400 {
        decimal(bytes as nat) + " B"@
    } else if bytes < 0x100000 {
        tenths(bytes as nat, 0x400) + " KiB"@
    } else if bytes < 0x40000000 {
        tenths(bytes as nat, 0x100000) + " MiB"@
    } else {
        tenths(bytes as nat, 0x40000000) + " GiB"@
    }
}

/// `bytes` in units of `unit`, with one decimal rounded down.
pub open spec fn tenths(bytes: nat, unit: nat) -> Seq<char> {
    decimal(bytes / unit) + "."@ + decimal((bytes % unit) * 10 / unit)
}

fn tenths_text(bytes: u64, unit: u64) -> (s: String)
    requires
        0 < unit <= 0x40000000,
    ensures
        s@ == tenths(bytes as nat, unit as nat),
{
    let mut s = decimal_text(bytes / unit);
    s.push_str(".");
    let rest: u64 = bytes % unit;
    s.push_str(decimal_text(rest * 10 / unit).as_str());
    s
}

pub fn format_size(bytes: u64) -> (s: String)
    ensures
        s@ == size_form(bytes),
{
    if bytes < 0x400 {
        let mut s = decimal_text(bytes);
        s.push_str(" B");
        s
    } else if bytes < 0x100000 {
        let mut s = tenths_text(bytes, 0x400);
        s.push_str(" KiB");
        s
    } else if bytes < 0x40000000 {
        let mut s = tenths_text(bytes, 0x100000);
        s.push_str(" MiB");
        s
    } else {
        let mut s = tenths_text(bytes, 0x40000000);
        s.push_str(" GiB");
        s
    }
}

// ---------------------------------------------------------------------------
// Notations of identifiers
// ---------------------------------------------------------------------------

spec fn sixteens(k: nat) -> nat
    decreases k,
{
    if k == 0 {
        1
    } else {
        16 * sixteens((k - 1) as nat)
    }
}

/// No character is a capital letter.
spec fn small(s: Seq<char>) -> bool {
    forall|i: int| 0 <= i < s.len() ==> !('A' <= #[trigger] s[i] && s[i] <= 'Z')
}

proof fn lemma_hex_small(n: nat, width: nat)
    ensures
        hex_number(n, width).len() == width,
        small(hex_number(n, width)),
    decreases width,
{
    reveal_strlit("0123456789abcdef");
    if width > 0 {
        lemma_hex_small(n / 16, (width - 1) as nat);
    }
}

proof fn lemma_hex_splits(n: nat, width: nat, k: nat)
    ensures
        sixteens(k) > 0,
        hex_number(n, width + k) == hex_number(n / sixteens(k), width) + hex_number(n, k),
    decreases k,
{
    if k == 0 {
        assert(n / 1 == n);
        assert(hex_number(n, width) + hex_number(n, 0) =~= hex_number(n, width));
    } else {
        let p = sixteens((k - 1) as nat);
        lemma_hex_splits(n / 16, width, (k - 1) as nat);
        lemma_div_denominator(n as int, 16, p as int);
        assert(16 * p == sixteens(k));
        let d = hex_digit((n % 16) as int);
        assert((hex_number(n / 16 / p, width) + hex_number(n / 16, (k - 1) as nat)).push(d)
            =~= hex_number(n / 16 / p, width) + hex_number(n / 16, (k - 1) as nat).push(d));
    }
}

proof fn lemma_digit(v: int)
    requires
        0 <= v < 16,
    ensures
        hex_digit(v) as u32 == if v < 10 {
            48 + v
        } else {
            87 + v
        },
{
    reveal_strlit("0123456789abcdef");
    assert(v == 0 || v == 1 || v == 2 || v == 3 || v == 4 || v == 5 || v == 6 || v == 7 || v == 8 || v
        == 9 || v == 10 || v == 11 || v == 12 || v == 13 || v == 14 || v == 15);
}

proof fn lemma_hex_names_one(a: nat, b: nat, width: nat)
    requires
        a < sixteens(width),
        b < sixteens(width),
        hex_number(a, width) == hex_number(b, width),
    ensures
        a == b,
    decreases width,
{
    if width > 0 {
        let x = hex_number(a / 16, (width - 1) as nat);
        let y = hex_number(b / 16, (width - 1) as nat);
        lemma_hex_small(a / 16, (width - 1) as nat);
        lemma_hex_small(b / 16, (width - 1) as nat);
        assert(x =~= hex_number(a, width).drop_last());
        assert(y =~= hex_number(b, width).drop_last());
        lemma_hex_names_one(a / 16, b / 16, (width - 1) as nat);
        assert(hex_number(a, width).last() == hex_number(b, width).last());
        lemma_digit((a % 16) as int);
        lemma_digit((b % 16) as int);
        assert(hex_number(a, width).last() == hex_digit((a % 16) as int));
        assert(hex_number(b, width).last() == hex_digit((b % 16) as int));
        assert(a % 16 == b % 16);
        assert(a / 16 == b / 16);
    }
}

proof fn lemma_small_alike(s: Seq<char>, a: Seq<char>, b: Seq<char>)
    requires
        same_ignoring_case(s, a),
        same_ignoring_case(s, b),
        small(a),
        small(b),
    ensures
        a == b,
{
    assert forall|i: int| 0 <= i < a.len() implies a[i] == b[i] by {
        assert(same_letter(s[i], a[i]));
        assert(same_letter(s[i], b[i]));
    }
    assert(a =~= b);
}

/// The five groups, put together, are the digits.
proof fn lemma_groups(id: Uuid)
    ensures
        uuid_form(id).len() == 36,
        small(uuid_form(id)),
        hex_number(id as nat, 32) == uuid_form(id).take(8) + uuid_form(id).subrange(9, 13)
            + uuid_form(id).subrange(14, 18) + uuid_form(id).subrange(19, 23) + uuid_form(id).skip(24),
{
    reveal_strlit("-");
    let n = id as nat;
    let g = uuid_form(id);
    lemma_sixteens();
    lemma_hex_splits(n, 20, 12);
    lemma_hex_splits(n / sixteens(12), 16, 4);
    lemma_hex_splits(n / sixteens(16), 12, 4);
    lemma_hex_splits(n / sixteens(20), 8, 4);
    lemma_div_denominator(n as int, sixteens(12) as int, sixteens(4) as int);
    lemma_div_denominator(n as int, sixteens(16) as int, sixteens(4) as int);
    lemma_div_denominator(n as int, sixteens(20) as int, sixteens(4) as int);
    let a = hex_number(n / sixteens(24), 8);
    let b = hex_number(n / sixteens(20), 4);
    let c = hex_number(n / sixteens(16), 4);
    let d = hex_number(n / sixteens(12), 4);
    let e = hex_number(n, 12);
    lemma_hex_small(n / sixteens(24), 8);
    lemma_hex_small(n / sixteens(20), 4);
    lemma_hex_small(n / sixteens(16), 4);
    lemma_hex_small(n / sixteens(12), 4);
    lemma_hex_small(n, 12);
    assert(hex_number(n, 32) == a + b + c + d + e);
    assert(g == a + "-"@ + b + "-"@ + c + "-"@ + d + "-"@ + e);
    assert(g.take(8) =~= a);
    assert(g.subrange(9, 13) =~= b);
    assert(g.subrange(14, 18) =~= c);
    assert(g.subrange(19, 23) =~= d);
    assert(g.skip(24) =~= e);
}

proof fn lemma_sixteens()
    ensures
        sixteens(4) == 0x10000,
        sixteens(12) == 0x1000000000000,
        sixteens(16) == 0x10000000000000000,
        sixteens(20) == 0x100000000000000000000,
        sixteens(24) == 0x1000000000000000000000000,
        sixteens(32) == 0x100000000000000000000000000000000,
{
    reveal_with_fuel(sixteens, 5);
    assert(sixteens(8) == 0x10000 * sixteens(4));
    assert(sixteens(12) == 0x10000 * sixteens(8));
    assert(sixteens(16) == 0x10000 * sixteens(12));
    assert(sixteens(20) == 0x10000 * sixteens(16));
    assert(sixteens(24) == 0x10000 * sixteens(20));
    assert(sixteens(28) == 0x10000 * sixteens(24));
    assert(sixteens(32) == 0x10000 * sixteens(28));
}

/// A text is a notation of one identifier at most, and is read as that one.
pub proof fn a_notation_names_one_identifier(s: Seq<char>, id: Uuid)
    requires
        is_notation(s, id),
    ensures
        parsed_uuid(s) == Some(id),
        forall|other: Uuid| #[trigger] is_notation(s, other) ==> other == id,
{
    reveal_strlit("{");
    reveal_strlit("}");
    reveal_strlit("urn:uuid:");
    assert forall|other: Uuid| #[trigger] is_notation(s, other) implies other == id by {
        lemma_groups(id);
        lemma_groups(other);
        lemma_sixteens();
        lemma_hex_small(id as nat, 32);
        lemma_hex_small(other as nat, 32);
        let x = uuid_form(id);
        let y = uuid_form(other);
        if s.len() == 32 {
            lemma_small_alike(s, hex_number(id as nat, 32), hex_number(other as nat, 32));
        } else if s.len() == 36 {
            lemma_small_alike(s, x, y);
        } else if s.len() == 38 {
            let a = "{"@ + x + "}"@;
            let b = "{"@ + y + "}"@;
            lemma_small_alike(s, a, b);
            assert(a.subrange(1, 37) =~= x);
            assert(b.subrange(1, 37) =~= y);
        } else {
            let a = "urn:uuid:"@ + x;
            let b = "urn:uuid:"@ + y;
            lemma_small_alike(s, a, b);
            assert(a.skip(9) =~= x);
            assert(b.skip(9) =~= y);
        }
        lemma_hex_names_one(id as nat, other as nat, 32);
    }
}

} // verus!
