//! The ids of allocations: version 4 UUIDs, as numbers of 128 bits and as text.
use vstd::prelude::*;

verus! {

/// The lower case hexadecimal digit of a number below sixteen.
pub open spec fn hex_char(digit: nat) -> char {
    if digit < 10 {
        ('0' as nat + digit) as char
    } else {
        ('a' as nat + digit - 10) as char
    }
}

/// The value of a hexadecimal digit, in either case.
pub open spec fn hex_value(c: char) -> Option<nat> {
    if '0' <= c <= '9' {
        Some((c as nat - '0' as nat) as nat)
    } else if 'a' <= c <= 'f' {
        Some((c as nat - 'a' as nat + 10) as nat)
    } else if 'A' <= c <= 'F' {
        Some((c as nat - 'A' as nat + 10) as nat)
    } else {
        None
    }
}

/// The last `width` hexadecimal digits of a number.
pub open spec fn hex_digits(n: nat, width: nat) -> Seq<char>
    decreases width,
{
    if width == 0 {
        Seq::empty()
    } else {
        hex_digits(n / 16, (width - 1) as nat).push(hex_char(n % 16))
    }
}

/// The number that hexadecimal digits stand for, where every character is one.
pub open spec fn hex_number(digits: Seq<char>) -> Option<nat>
    decreases digits.len(),
{
    if digits.len() == 0 {
        Some(0)
    } else {
        match (hex_number(digits.drop_last()), hex_value(digits.last())) {
            (Some(front), Some(last)) => Some(front * 16 + last),
            _ => None,
        }
    }
}

/// An id as text: its 32 digits in lower case, in five groups separated by hyphens.
pub open spec fn id_text(id: u128) -> Seq<char> {
    let digits = hex_digits(id as nat, 32);
    digits.subrange(0, 8).push('-') + digits.subrange(8, 12).push('-') + digits.subrange(
        12,
        16,
    ).push('-') + digits.subrange(16, 20).push('-') + digits.subrange(20, 32)
}

/// The id that five groups of digits stand for.
pub open spec fn grouped_id(text: Seq<char>) -> Option<nat> {
    if text.len() == 36 && text[8] == '-' && text[13] == '-' && text[18] == '-' && text[23]
        == '-' {
        hex_number(
            text.subrange(0, 8) + text.subrange(9, 13) + text.subrange(14, 18) + text.subrange(
                19,
                23,
            ) + text.subrange(24, 36),
        )
    } else {
        None
    }
}

/// An ASCII letter in lower case.
pub open spec fn lower(c: char) -> char {
    if 'A' <= c <= 'Z' {
        (c as nat + 32) as char
    } else {
        c
    }
}

/// The id that a text stands for: 32 digits, or five groups of them, which may stand in braces or
/// behind `urn:uuid:`.
pub open spec fn text_id(text: Seq<char>) -> Option<nat> {
    if text.len() == 32 {
        hex_number(text)
    } else if text.len() == 36 {
        grouped_id(text)
    } else if text.len() == 38 && text[0] == '{' && text[37] == '}' {
        grouped_id(text.subrange(1, 37))
    } else if text.len() == 45 && text.take(9).map_values(|c: char| lower(c)) == "urn:uuid:"@ {
        grouped_id(text.skip(9))
    } else {
        None
    }
}

/// The id is that of a random UUID: version 4, in the variant of RFC 9562.
pub open spec fn is_random_id(id: u128) -> bool {
    (id / 0x1000_0000_0000_0000_0000) % 16 == 4 && (id / 0x4000_0000_0000_0000) % 4 == 2
}

/// `TryFrom<&str>` of `uuid::Uuid`: the id that a text stands for, in any of the forms that the
/// crate writes and in either case. It fails on every other text.
#[verifier::external_body]
fn parse_uuid(text: &str) -> (res: Option<u128>)
    ensures
        match res {
            Some(id) => text_id(text@) == Some(id as nat),
            None => text_id(text@) is None,
        },
{
    uuid::Uuid::try_from(text).ok().map(|id| id.as_u128())
}

/// `Display` of `uuid::Uuid`: the digits of the id in lower case, in five groups separated by
/// hyphens.
#[verifier::external_body]
fn uuid_text(id: u128) -> (res: String)
    ensures
        res@ == id_text(id),
{
    uuid::Uuid::from_u128(id).to_string()
}

/// `uuid::Uuid::new_v4`: an id with the version and the variant of a random UUID. Its other bits
/// are left to chance, and nothing is said of them. It panics only where the system has no source of
/// randomness.
#[verifier::external_body]
fn random_uuid() -> (res: u128)
    ensures
        is_random_id(res),
{
    uuid::Uuid::new_v4().as_u128()
}

/// An id for a new allocation. Which one is left to chance.
pub fn new_allocation_id() -> (res: u128)
    ensures
        is_random_id(res),
{
    random_uuid()
}

/// The id that a text stands for.
pub fn parse_allocation_id(text: &str) -> (res: Option<u128>)
    ensures
        match res {
            Some(id) => text_id(text@) == Some(id as nat),
            None => text_id(text@) is None,
        },
{
    parse_uuid(text)
}

/// An id as text. It stands for the same id when it is read.
pub fn allocation_id_text(id: u128) -> (res: String)
    ensures
        res@ == id_text(id),
        text_id(res@) == Some(id as nat),
{
    proof {
        law_id_text_round_trip(id);
    }
    uuid_text(id)
}

/// One past the largest number of `width` hexadecimal digits.
spec fn hex_bound(width: nat) -> nat
    decreases width,
{
    if width == 0 {
        1
    } else {
        16 * hex_bound((width - 1) as nat)
    }
}

/// Digits written are read back.
proof fn lemma_hex_round_trip(n: nat, width: nat)
    requires
        n < hex_bound(width),
    ensures
        hex_digits(n, width).len() == width,
        hex_number(hex_digits(n, width)) == Some(n),
    decreases width,
{
    if width > 0 {
        lemma_hex_round_trip(n / 16, (width - 1) as nat);
        let digits = hex_digits(n, width);
        assert(digits.drop_last() =~= hex_digits(n / 16, (width - 1) as nat));
        assert(hex_value(hex_char(n % 16)) == Some(n % 16));
    }
}

/// The text of an id stands for that id.
pub proof fn law_id_text_round_trip(id: u128)
    ensures
        text_id(id_text(id)) == Some(id as nat),
        id_text(id).len() == 36,
{
    assert(hex_bound(32) == 0x1_0000_0000_0000_0000_0000_0000_0000_0000) by {
        reveal_with_fuel(hex_bound, 33);
    }
    lemma_hex_round_trip(id as nat, 32);
    let digits = hex_digits(id as nat, 32);
    let text = id_text(id);
    assert(text.subrange(0, 8) + text.subrange(9, 13) + text.subrange(14, 18) + text.subrange(
        19,
        23,
    ) + text.subrange(24, 36) =~= digits);
}

/// The text of an id stands for that id, and ids are told apart by it. It is 36 characters long:
/// groups of lower case hexadecimal digits with hyphens between them.
pub proof fn law_id_is_read_back(id: u128, text: String, same: &str, read: Option<u128>)
    requires
        call_ensures(allocation_id_text, (id,), text),
        same@ == text@,
        call_ensures(parse_allocation_id, (same,), read),
    ensures
        read == Some(id),
        text@.len() == 36,
        forall|i: int|
            0 <= i < 36 ==> if i == 8 || i == 13 || i == 18 || i == 23 {
                #[trigger] text@[i] == '-'
            } else {
                '0' <= text@[i] <= '9' || 'a' <= text@[i] <= 'f'
            },
{
    law_id_text_round_trip(id);
    lemma_hex_chars(id as nat, 32);
    let digits = hex_digits(id as nat, 32);
    assert forall|i: int| 0 <= i < 36 implies if i == 8 || i == 13 || i == 18 || i == 23 {
        #[trigger] text@[i] == '-'
    } else {
        '0' <= text@[i] <= '9' || 'a' <= text@[i] <= 'f'
    } by {
        if i < 8 {
            assert(text@[i] == digits[i]);
        } else if 8 < i < 13 {
            assert(text@[i] == digits[i - 1]);
        } else if 13 < i < 18 {
            assert(text@[i] == digits[i - 2]);
        } else if 18 < i < 23 {
            assert(text@[i] == digits[i - 3]);
        } else if 23 < i {
            assert(text@[i] == digits[i - 4]);
        }
    }
}

/// Digits are written in lower case.
proof fn lemma_hex_chars(n: nat, width: nat)
    ensures
        hex_digits(n, width).len() == width,
        forall|i: int|
            0 <= i < width ==> '0' <= #[trigger] hex_digits(n, width)[i] <= '9' || 'a' <= hex_digits(
                n,
                width,
            )[i] <= 'f',
    decreases width,
{
    if width > 0 {
        lemma_hex_chars(n / 16, (width - 1) as nat);
    }
}

/// An id is read from each of the forms of its text: with hyphens, without them, in braces, behind
/// `urn:uuid:`, and in upper case. A text of another length is no id.
pub proof fn law_id_is_read_in_every_form(
    id: u128,
    text: String,
    plain: &str,
    from_plain: Option<u128>,
    braced: &str,
    from_braced: Option<u128>,
    urn: &str,
    from_urn: Option<u128>,
    any: &str,
    from_any: Option<u128>,
)
    requires
        call_ensures(allocation_id_text, (id,), text),
        plain@ == text@.subrange(0, 8) + text@.subrange(9, 13) + text@.subrange(14, 18)
            + text@.subrange(19, 23) + text@.subrange(24, 36),
        call_ensures(parse_allocation_id, (plain,), from_plain),
        braced@ == seq!['{'] + text@ + seq!['}'],
        call_ensures(parse_allocation_id, (braced,), from_braced),
        urn@ == "urn:uuid:"@ + text@,
        call_ensures(parse_allocation_id, (urn,), from_urn),
        call_ensures(parse_allocation_id, (any,), from_any),
    ensures
        from_plain == Some(id),
        from_braced == Some(id),
        from_urn == Some(id),
        any@.len() != 32 && any@.len() != 36 && any@.len() != 38 && any@.len() != 45
            ==> from_any is None,
        (any@.len() == 36 && forall|i: int|
            0 <= i < 36 ==> #[trigger] any@[i] == text@[i] || 'a' <= text@[i] <= 'f' && any@[i] as int
                == text@[i] as int - 32) ==> from_any == Some(id),
{
    law_id_text_round_trip(id);
    let digits = hex_digits(id as nat, 32);
    assert(hex_bound(32) == 0x1_0000_0000_0000_0000_0000_0000_0000_0000) by {
        reveal_with_fuel(hex_bound, 33);
    }
    lemma_hex_round_trip(id as nat, 32);
    assert(plain@ =~= digits);
    assert(braced@.subrange(1, 37) =~= text@);
    reveal_strlit("urn:uuid:");
    assert(urn@.take(9) =~= "urn:uuid:"@);
    assert(urn@.take(9).map_values(|c: char| lower(c)) =~= "urn:uuid:"@);
    assert(urn@.skip(9) =~= text@);
    if any@.len() == 36 && forall|i: int|
        0 <= i < 36 ==> #[trigger] any@[i] == text@[i] || 'a' <= text@[i] <= 'f' && any@[i] as int
            == text@[i] as int - 32 {
        let upper = any@.subrange(0, 8) + any@.subrange(9, 13) + any@.subrange(14, 18)
            + any@.subrange(19, 23) + any@.subrange(24, 36);
        assert(any@[8] == '-' && any@[13] == '-' && any@[18] == '-' && any@[23] == '-') by {
            assert(text@[8] == '-' && text@[13] == '-' && text@[18] == '-' && text@[23] == '-');
        }
        assert forall|i: int| 0 <= i < 32 implies #[trigger] upper[i] == digits[i] || 'a'
            <= digits[i] <= 'f' && upper[i] as int == digits[i] as int - 32 by {
            let at = if i < 8 {
                i
            } else if i < 12 {
                i + 1
            } else if i < 16 {
                i + 2
            } else if i < 20 {
                i + 3
            } else {
                i + 4
            };
            assert(upper[i] == any@[at]);
            assert(digits[i] == text@[at]);
        }
        lemma_case_of_digits(upper, digits);
    }
}

/// The case of digits makes no difference.
proof fn lemma_case_of_digits(upper: Seq<char>, digits: Seq<char>)
    requires
        upper.len() == digits.len(),
        forall|i: int|
            0 <= i < digits.len() ==> #[trigger] upper[i] == digits[i] || 'a' <= digits[i] <= 'f'
                && upper[i] as int == digits[i] as int - 32,
    ensures
        hex_number(upper) == hex_number(digits),
    decreases digits.len(),
{
    if digits.len() > 0 {
        lemma_case_of_digits(upper.drop_last(), digits.drop_last());
        assert(upper[digits.len() - 1] == digits[digits.len() - 1] || 'a' <= digits[digits.len()
            - 1] <= 'f');
    }
}

} // verus!
