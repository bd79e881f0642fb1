//! Run identifiers: 128-bit UUIDs and their texts.

use vstd::prelude::*;
use vstd::utf8::is_ascii_chars;
use uuid::Uuid;
use crate::sorted::Key;
use crate::text::{
    lemma_ascii_order, lemma_text_irreflexive, lemma_text_transitive, text_precedes, Place,
};

verus! {

/// The identity of one run.
#[derive(Debug, Clone, Copy, PartialEq, Eq, PartialOrd, Ord, Hash, Structural)]
pub struct RunId {
    pub bits: u128,
}

impl View for RunId {
    type V = u128;

    open spec fn view(&self) -> u128 {
        self.bits
    }
}

impl Key for RunId {
    type Model = u128;

    open spec fn model(&self) -> u128 {
        self.bits
    }

    open spec fn precedes(a: u128, b: u128) -> bool {
        a < b
    }

    proof fn irreflexive(a: u128) {
    }

    proof fn transitive(a: u128, b: u128, c: u128) {
    }

    fn compare(&self, other: &Self) -> (place: Place) {
        if self.bits < other.bits {
            Place::Before
        } else if self.bits == other.bits {
            Place::Same
        } else {
            Place::After
        }
    }
}

/// A lower-case hexadecimal digit.
pub open spec fn hex_digit(value: int) -> char {
    if value < 10 {
        ('0' as int + value) as char
    } else {
        ('a' as int + value - 10) as char
    }
}

/// The value of the lowest `n` hexadecimal digits' place: sixteen to the power `n`.
pub open spec fn sixteen(n: nat) -> nat
    decreases n,
{
    if n == 0 {
        1
    } else {
        16 * sixteen((n - 1) as nat)
    }
}

/// The hexadecimal digits of a number, `n` of them, the most significant first.
pub open spec fn hex(value: nat, n: nat) -> Seq<char>
    decreases n,
{
    if n == 0 {
        Seq::empty()
    } else {
        hex(value / 16, (n - 1) as nat).push(hex_digit((value % 16) as int))
    }
}

/// The text of an identifier: five groups of digits, joined by hyphens.
pub open spec fn hyphenated(bits: u128) -> Seq<char> {
    let digits = hex(bits as nat, 32);
    digits.subrange(0, 8) + seq!['-'] + digits.subrange(8, 12) + seq!['-'] + digits.subrange(12, 16)
        + seq!['-'] + digits.subrange(16, 20) + seq!['-'] + digits.subrange(20, 32)
}

/// An ASCII capital in lower case; any other character as it is.
pub open spec fn lower(c: char) -> char {
    if 'A' <= c <= 'Z' {
        (c as int + 32) as char
    } else {
        c
    }
}

pub open spec fn lowered(text: Seq<char>) -> Seq<char> {
    Seq::new(text.len(), |i: int| lower(text[i]))
}

/// Whether a text spells an identifier: bare digits, hyphenated, hyphenated in braces, or as a
/// URN, in capitals or not.
pub open spec fn spells(text: Seq<char>, bits: u128) -> bool {
    let plain = lowered(text);
    ||| plain == hex(bits as nat, 32)
    ||| plain == hyphenated(bits)
    ||| plain == seq!['{'] + hyphenated(bits) + seq!['}']
    ||| plain == seq!['u', 'r', 'n', ':', 'u', 'u', 'i', 'd', ':'] + hyphenated(bits)
}

/// Whether the version and variant bits are those of a random UUID.
pub open spec fn is_random_uuid(bits: u128) -> bool {
    &&& (bits >> 76) & 0xf == 4
    &&& (bits >> 62) & 3 == 2
}

/// Draws an identifier with `uuid::Uuid::new_v4`. The claim is that it carries version four and
/// the standard variant; the other bits are random.
#[verifier::external_body]
fn random_uuid() -> (bits: u128)
    ensures
        is_random_uuid(bits),
{
    Uuid::new_v4().as_u128()
}

/// Writes an identifier with `uuid::Uuid`'s `Display`: the hyphenated lower-case form.
#[verifier::external_body]
fn uuid_text(bits: u128) -> (text: String)
    ensures
        text@ == hyphenated(bits),
{
    Uuid::from_u128(bits).to_string()
}

/// Reads an identifier with `uuid::Uuid::parse_str`. It accepts exactly the texts that spell one,
/// and gives the identifier spelled.
#[verifier::external_body]
fn read_uuid(text: &str) -> (bits: Option<u128>)
    ensures
        bits matches Some(b) ==> spells(text@, b),
        bits is None ==> forall|b: u128| !spells(text@, b),
{
    match Uuid::parse_str(text) {
        Ok(id) => Some(id.as_u128()),
        Err(_) => None,
    }
}

impl RunId {
    /// Draws a fresh random identifier.
    pub fn new_v4() -> (id: RunId)
        ensures
            is_random_uuid(id@),
    {
        RunId { bits: random_uuid() }
    }

    /// The canonical text of the identifier.
    pub fn text(&self) -> (text: String)
        ensures
            text@ == hyphenated(self@),
    {
        uuid_text(self.bits)
    }

    /// Reads an identifier from any of its spellings.
    pub fn parse(text: &str) -> (id: Option<RunId>)
        ensures
            id matches Some(found) ==> spells(text@, found@),
            id is None ==> forall|b: u128| !spells(text@, b),
    {
        match read_uuid(text) {
            Some(bits) => Some(RunId { bits }),
            None => None,
        }
    }
}

proof fn lemma_sixteen_32()
    ensures
        sixteen(32) == u128::MAX + 1,
{
    reveal_with_fuel(sixteen, 33);
}

proof fn lemma_hex_len(value: nat, n: nat)
    ensures
        hex(value, n).len() == n,
        forall|i: int| 0 <= i < n ==> lower(#[trigger] hex(value, n)[i]) == hex(value, n)[i],
    decreases n,
{
    if n > 0 {
        lemma_hex_len(value / 16, (n - 1) as nat);
        let c = hex_digit((value % 16) as int);
        assert(lower(c) == c);
        let shorter = hex(value / 16, (n - 1) as nat);
        assert forall|i: int| 0 <= i < n implies lower(#[trigger] hex(value, n)[i]) == hex(
            value,
            n,
        )[i] by {
            if i < n - 1 {
                assert(hex(value, n)[i] == shorter[i]);
            }
        }
    }
}

proof fn lemma_hex_injective(a: nat, b: nat, n: nat)
    requires
        a < sixteen(n),
        b < sixteen(n),
        hex(a, n) == hex(b, n),
    ensures
        a == b,
    decreases n,
{
    if n > 0 {
        let m = (n - 1) as nat;
        let pa = hex(a / 16, m);
        let pb = hex(b / 16, m);
        let ca = hex_digit((a % 16) as int);
        let cb = hex_digit((b % 16) as int);
        assert(pa.push(ca).drop_last() =~= pa);
        assert(pb.push(cb).drop_last() =~= pb);
        assert(pa.push(ca).last() == ca);
        assert(pb.push(cb).last() == cb);
        assert(a % 16 == b % 16);
        lemma_hex_injective(a / 16, b / 16, m);
    }
}

proof fn lemma_hyphenated_injective(a: u128, b: u128)
    requires
        hyphenated(a) == hyphenated(b),
    ensures
        a == b,
{
    lemma_hex_len(a as nat, 32);
    lemma_hex_len(b as nat, 32);
    let x = hex(a as nat, 32);
    let y = hex(b as nat, 32);
    let s = hyphenated(a);
    let t = hyphenated(b);
    assert(x =~= s.subrange(0, 8) + s.subrange(9, 13) + s.subrange(14, 18) + s.subrange(19, 23)
        + s.subrange(24, 36));
    assert(y =~= t.subrange(0, 8) + t.subrange(9, 13) + t.subrange(14, 18) + t.subrange(19, 23)
        + t.subrange(24, 36));
    lemma_sixteen_32();
    lemma_hex_injective(a as nat, b as nat, 32);
}

/// The canonical text of an identifier spells that identifier and no other.
pub proof fn text_spells_its_id(id: u128, other: u128)
    ensures
        spells(hyphenated(id), id),
        spells(hyphenated(id), other) ==> other == id,
{
    lemma_hex_len(id as nat, 32);
    lemma_hex_len(other as nat, 32);
    let text = hyphenated(id);
    assert(lowered(text) =~= text);
    if spells(text, other) {
        assert(text.len() == 36);
        assert(hyphenated(other).len() == 36);
        lemma_hyphenated_injective(id, other);
    }
}

/// Where the digits of two numbers differ first, the smaller number has the smaller digit.
proof fn lemma_hex_differs(a: nat, b: nat, n: nat) -> (k: int)
    requires
        a < b < sixteen(n),
    ensures
        0 <= k < n,
        hex(a, n).take(k) == hex(b, n).take(k),
        hex(a, n)[k] < hex(b, n)[k],
    decreases n,
{
    let m = (n - 1) as nat;
    lemma_hex_len(a, n);
    lemma_hex_len(b, n);
    lemma_hex_len(a / 16, m);
    lemma_hex_len(b / 16, m);
    if a / 16 < b / 16 {
        let k = lemma_hex_differs(a / 16, b / 16, m);
        assert(hex(a, n).take(k) =~= hex(a / 16, m).take(k));
        assert(hex(b, n).take(k) =~= hex(b / 16, m).take(k));
        k
    } else {
        assert(hex(a, n).take(n - 1) =~= hex(a / 16, m));
        assert(hex(b, n).take(n - 1) =~= hex(b / 16, m));
        n - 1
    }
}

/// Where a digit stands in the text of an identifier.
spec fn digit_place(k: int) -> int {
    if k < 8 {
        k
    } else if k < 12 {
        k + 1
    } else if k < 16 {
        k + 2
    } else if k < 20 {
        k + 3
    } else {
        k + 4
    }
}

proof fn lemma_hyphenated_digits(bits: u128)
    ensures
        hyphenated(bits).len() == 36,
        hyphenated(bits)[8] == '-',
        hyphenated(bits)[13] == '-',
        hyphenated(bits)[18] == '-',
        hyphenated(bits)[23] == '-',
        forall|k: int|
            0 <= k < 32 ==> hyphenated(bits)[digit_place(k)] == #[trigger] hex(bits as nat, 32)[k],
{
    lemma_hex_len(bits as nat, 32);
}

proof fn lemma_hex_ascii(value: nat, n: nat)
    ensures
        is_ascii_chars(hex(value, n)),
    decreases n,
{
    if n > 0 {
        lemma_hex_ascii(value / 16, (n - 1) as nat);
    }
}

proof fn lemma_text_increases(a: u128, b: u128)
    requires
        a < b,
    ensures
        text_precedes(hyphenated(a), hyphenated(b)),
{
    lemma_sixteen_32();
    lemma_hex_ascii(a as nat, 32);
    lemma_hex_ascii(b as nat, 32);
    lemma_hex_len(a as nat, 32);
    lemma_hex_len(b as nat, 32);
    lemma_hyphenated_digits(a);
    lemma_hyphenated_digits(b);
    let x = hex(a as nat, 32);
    let y = hex(b as nat, 32);
    let s = hyphenated(a);
    let t = hyphenated(b);
    let k = lemma_hex_differs(a as nat, b as nat, 32);
    let at = digit_place(k);
    assert forall|i: int| 0 <= i < at implies s[i] == t[i] by {
        let digit = if i < 8 {
            i
        } else if i < 13 {
            i - 1
        } else if i < 18 {
            i - 2
        } else if i < 23 {
            i - 3
        } else {
            i - 4
        };
        if i != 8 && i != 13 && i != 18 && i != 23 {
            assert(digit_place(digit) == i);
            assert(x.take(k)[digit] == y.take(k)[digit]);
            assert(x[digit] == y[digit]);
        }
    }
    assert(s.take(at) =~= t.take(at));
    assert(s[at] == x[k] && t[at] == y[k]);
    lemma_ascii_order(s, t, at);
}

/// The texts of identifiers sort as the identifiers do.
pub proof fn texts_sort_like_ids(a: u128, b: u128)
    ensures
        text_precedes(hyphenated(a), hyphenated(b)) <==> a < b,
{
    lemma_text_irreflexive(hyphenated(a));
    if a < b {
        lemma_text_increases(a, b);
    } else if b < a {
        lemma_text_increases(b, a);
        if text_precedes(hyphenated(a), hyphenated(b)) {
            lemma_text_transitive(hyphenated(a), hyphenated(b), hyphenated(a));
        }
    }
}

} // verus!
