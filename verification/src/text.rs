//! Text put together from pieces: decimal numbers and `host:port` addresses.
use vstd::prelude::*;
use vstd::utf8::*;

verus! {

/// The character of a decimal digit.
pub open spec fn digit_char(digit: nat) -> char {
    ('0' as nat + digit) as char
}

/// A number in decimal, without leading zeros.
pub open spec fn decimal(n: nat) -> Seq<char>
    decreases n,
{
    if n < 10 {
        seq![digit_char(n)]
    } else {
        decimal(n / 10).push(digit_char(n % 10))
    }
}

/// One digit as text.
fn digit_text(digit: u64) -> (res: &'static str)
    requires
        digit < 10,
    ensures
        res@ == seq![digit_char(digit as nat)],
{
    proof {
        reveal_strlit("0");
        reveal_strlit("1");
        reveal_strlit("2");
        reveal_strlit("3");
        reveal_strlit("4");
        reveal_strlit("5");
        reveal_strlit("6");
        reveal_strlit("7");
        reveal_strlit("8");
        reveal_strlit("9");
    }
    let res: &'static str = match digit {
        0 => "0",
        1 => "1",
        2 => "2",
        3 => "3",
        4 => "4",
        5 => "5",
        6 => "6",
        7 => "7",
        8 => "8",
        _ => "9",
    };
    assert(res@ =~= seq![digit_char(digit as nat)]);
    res
}

/// Appends a number in decimal.
pub fn push_decimal(out: &mut String, n: u64)
    ensures
        final(out)@ == old(out)@ + decimal(n as nat),
    decreases n,
{
    if n >= 10 {
        push_decimal(out, n / 10);
    }
    out.append(digit_text(n % 10));
    proof {
        assert(old(out)@ + decimal(n as nat) =~= out@);
    }
}

/// An address in the form `host:port`.
pub open spec fn host_port(host: Seq<char>, port: u16) -> Seq<char> {
    host + seq![':'] + decimal(port as nat)
}

/// Writes an address in the form `host:port`.
pub fn host_port_text(host: &str, port: u16) -> (res: String)
    ensures
        res@ == host_port(host@, port),
{
    let mut res = String::new();
    res.append(host);
    proof {
        reveal_strlit(":");
    }
    res.append(":");
    push_decimal(&mut res, port as u64);
    assert(":"@ =~= seq![':']);
    assert(res@ =~= host_port(host@, port));
    res
}

/// Tests whether two texts are the same.
pub fn same(left: &str, right: &str) -> (res: bool)
    ensures
        res == (left@ == right@),
{
    let left_bytes = left.as_bytes();
    let right_bytes = right.as_bytes();
    proof {
        encode_utf8_decode_utf8(left@);
        encode_utf8_decode_utf8(right@);
    }
    if left_bytes.len() != right_bytes.len() {
        return false;
    }
    let mut i: usize = 0;
    while i < left_bytes.len()
        invariant
            i <= left_bytes@.len(),
            left_bytes@.len() == right_bytes@.len(),
            left_bytes@ == encode_utf8(left@),
            right_bytes@ == encode_utf8(right@),
            left_bytes@.take(i as int) == right_bytes@.take(i as int),
        decreases left_bytes@.len() - i,
    {
        if left_bytes[i] != right_bytes[i] {
            return false;
        }
        proof {
            assert(left_bytes@.take(i + 1) =~= left_bytes@.take(i as int).push(left_bytes@[i as int]));
            assert(right_bytes@.take(i + 1) =~= right_bytes@.take(i as int).push(
                right_bytes@[i as int],
            ));
        }
        i = i + 1;
    }
    assert(left_bytes@ =~= left_bytes@.take(i as int));
    assert(right_bytes@ =~= right_bytes@.take(i as int));
    true
}

/// Tests whether a text starts with another.
pub fn starts_with(text: &str, start: &str) -> (res: bool)
    ensures
        res == start@.is_prefix_of(text@),
{
    let len: usize = start.unicode_len();
    if text.unicode_len() < len {
        return false;
    }
    let mut i: usize = 0;
    while i < len
        invariant
            i <= len,
            len == start@.len(),
            len <= text@.len(),
            forall|j: int| 0 <= j < i ==> text@[j] == start@[j],
        decreases len - i,
    {
        if text.get_char(i) != start.get_char(i) {
            assert(text@.subrange(0, len as int)[i as int] != start@[i as int]);
            return false;
        }
        i = i + 1;
    }
    assert(text@.subrange(0, len as int) =~= start@);
    true
}

/// The part of a text in front of the first colon, or all of it where there is none.
pub open spec fn before_colon(text: Seq<char>) -> Seq<char>
    decreases text.len(),
{
    if text.len() == 0 || text[0] == ':' {
        Seq::empty()
    } else {
        seq![text[0]] + before_colon(text.drop_first())
    }
}

/// The part in front of the first colon ends where the first colon is.
proof fn lemma_before_colon(text: Seq<char>, at: int)
    requires
        0 <= at <= text.len(),
        forall|j: int| 0 <= j < at ==> text[j] != ':',
        at < text.len() ==> text[at] == ':',
    ensures
        before_colon(text) == text.take(at),
    decreases text.len(),
{
    if at > 0 {
        let later = text.drop_first();
        assert forall|j: int| 0 <= j < at - 1 implies later[j] != ':' by {
            assert(later[j] == text[j + 1]);
        }
        lemma_before_colon(later, at - 1);
        assert(seq![text[0]] + later.take(at - 1) =~= text.take(at));
    } else {
        assert(text.take(0) =~= Seq::<char>::empty());
    }
}

/// Cuts a text off at its first colon.
pub fn up_to_colon(text: &str) -> (res: &str)
    ensures
        res@ == before_colon(text@),
{
    let len: usize = text.unicode_len();
    let mut i: usize = 0;
    while i < len && text.get_char(i) != ':'
        invariant
            i <= len,
            len == text@.len(),
            forall|j: int| 0 <= j < i ==> text@[j] != ':',
        decreases len - i,
    {
        i = i + 1;
    }
    proof {
        lemma_before_colon(text@, i as int);
        assert(text@.subrange(0, i as int) =~= text@.take(i as int));
    }
    text.substring_char(0, i)
}

/// The character is white space.
pub open spec fn is_white_space(c: char) -> bool {
    ||| '\u{9}' <= c <= '\u{d}'
    ||| c == ' ' || c == '\u{85}' || c == '\u{a0}' || c == '\u{1680}'
    ||| '\u{2000}' <= c <= '\u{200a}'
    ||| c == '\u{2028}' || c == '\u{2029}' || c == '\u{202f}' || c == '\u{205f}' || c == '\u{3000}'
}

/// A text without the white space at its start.
pub open spec fn trim_start(text: Seq<char>) -> Seq<char>
    decreases text.len(),
{
    if text.len() > 0 && is_white_space(text[0]) {
        trim_start(text.drop_first())
    } else {
        text
    }
}

/// A text without the white space at its end.
pub open spec fn trim_end(text: Seq<char>) -> Seq<char>
    decreases text.len(),
{
    if text.len() > 0 && is_white_space(text.last()) {
        trim_end(text.drop_last())
    } else {
        text
    }
}

/// `str::trim`: the text without the white space at its start and at its end. White space are the
/// characters with the Unicode property of that name.
#[verifier::external_body]
pub(crate) fn trim(text: &str) -> (res: &str)
    ensures
        res@ == trim_end(trim_start(text@)),
{
    text.trim()
}

/// The number that decimal digits stand for: a digit is worth its distance from the character of
/// zero, and ten times as much for each digit behind it.
pub open spec fn decimal_value(digits: Seq<char>) -> int
    decreases digits.len(),
{
    if digits.len() == 0 {
        0
    } else {
        10 * decimal_value(digits.drop_last()) + (digits.last() as int - 48)
    }
}

/// The text is a number in decimal: nothing but digits, and no zero in front of others.
pub open spec fn is_decimal_of(text: Seq<char>, n: int) -> bool {
    &&& text.len() > 0
    &&& forall|i: int| 0 <= i < text.len() ==> 48 <= #[trigger] text[i] as int <= 57
    &&& text[0] as int == 48 ==> text.len() == 1
    &&& decimal_value(text) == n
}

/// The text is an address: the host, a colon, and the port in decimal.
pub open spec fn is_address_of(text: Seq<char>, host: Seq<char>, port: u16) -> bool {
    &&& text.len() > host.len() + 1
    &&& text.take(host.len() as int) == host
    &&& text[host.len() as int] == ':'
    &&& is_decimal_of(text.skip(host.len() as int + 1), port as int)
}

/// The digits of a number stand for that number.
pub proof fn lemma_decimal(n: nat)
    ensures
        is_decimal_of(decimal(n), n as int),
        n > 0 ==> decimal(n)[0] as int != 48,
    decreases n,
{
    let digits = decimal(n);
    if n >= 10 {
        lemma_decimal(n / 10);
        assert(digits.drop_last() =~= decimal(n / 10));
    } else {
        assert(digits.drop_last() =~= Seq::<char>::empty());
        assert(decimal_value(Seq::<char>::empty()) == 0);
    }
}

/// A number is written so that it reads back: what is appended are digits alone, without zeros in
/// front, and they stand for the number. What was written before stays.
pub proof fn law_decimal_reads_back(out: &mut String, n: u64)
    requires
        call_ensures(push_decimal, (out, n), ()),
    ensures
        final(out)@.take(old(out)@.len() as int) == old(out)@,
        is_decimal_of(final(out)@.skip(old(out)@.len() as int), n as int),
{
    lemma_decimal(n as nat);
    assert(final(out)@.take(old(out)@.len() as int) =~= old(out)@);
    assert(final(out)@.skip(old(out)@.len() as int) =~= decimal(n as nat));
}

/// An address is the host, a colon and the digits that stand for the port. So the text behind its
/// last colon reads back to the port.
pub proof fn law_address_names_port(host: &str, port: u16, res: String)
    requires
        call_ensures(host_port_text, (host, port), res),
    ensures
        is_address_of(res@, host@, port),
{
    lemma_address(host@, port);
}

/// What an address is made of.
pub proof fn lemma_address(host: Seq<char>, port: u16)
    ensures
        is_address_of(host_port(host, port), host, port),
{
    let text = host_port(host, port);
    lemma_decimal(port as nat);
    assert(text.take(host.len() as int) =~= host);
    assert(text.skip(host.len() as int + 1) =~= decimal(port as nat));
}

/// A text is cut off in front of its first colon, and not at all where it holds none.
pub proof fn law_cut_off_at_first_colon(text: &str, res: &str)
    requires
        call_ensures(up_to_colon, (text,), res),
    ensures
        is_front_of(res@, text@),
{
    lemma_front(text@);
}

/// The front of a text ends where its first colon is.
pub open spec fn is_front_of(front: Seq<char>, text: Seq<char>) -> bool {
    &&& front.len() <= text.len()
    &&& forall|i: int| 0 <= i < front.len() ==> #[trigger] front[i] == text[i] && front[i] != ':'
    &&& front.len() < text.len() ==> text[front.len() as int] == ':'
}

/// The part of a text in front of the first colon.
pub proof fn lemma_front(text: Seq<char>)
    ensures
        is_front_of(before_colon(text), text),
    decreases text.len(),
{
    if text.len() > 0 && text[0] != ':' {
        let later = text.drop_first();
        lemma_front(later);
        let front = before_colon(text);
        assert forall|i: int| 0 <= i < front.len() implies #[trigger] front[i] == text[i] && front[i]
            != ':' by {
            if i > 0 {
                assert(before_colon(later)[i - 1] == later[i - 1]);
            }
        }
    }
}

/// The text is another one without white space around it: it stands in the other with nothing but
/// white space in front of it and behind it, and neither starts nor ends with white space.
pub open spec fn is_trimmed_of(trimmed: Seq<char>, text: Seq<char>) -> bool {
    exists|start: int| #[trigger] is_trimmed_at(trimmed, text, start)
}

/// The text without white space around it starts at a place of the other.
pub open spec fn is_trimmed_at(trimmed: Seq<char>, text: Seq<char>, start: int) -> bool {
    let end = start + trimmed.len();
    &&& 0 <= start <= end <= text.len()
    &&& trimmed == text.subrange(start, end)
    &&& forall|i: int|
        0 <= i < start || end <= i < text.len() ==> is_white_space(#[trigger] text[i])
    &&& trimmed.len() > 0 ==> !is_white_space(trimmed[0]) && !is_white_space(trimmed.last())
}

/// White space among ASCII characters are the blank and the characters from tab to carriage return.
pub proof fn law_ascii_white_space(c: char)
    requires
        (c as int) < 128,
    ensures
        is_white_space(c) <==> c as int == 32 || 9 <= c as int <= 13,
{
}

/// A text without the white space around it.
pub proof fn lemma_trimmed(text: Seq<char>)
    ensures
        is_trimmed_of(trim_end(trim_start(text)), text),
    decreases text.len(),
{
    if text.len() > 0 && is_white_space(text[0]) {
        let later = text.drop_first();
        lemma_trimmed(later);
        let trimmed = trim_end(trim_start(text));
        let start = choose|start: int| #[trigger] is_trimmed_at(trimmed, later, start);
        assert(trimmed =~= text.subrange(start + 1, start + 1 + trimmed.len()));
        assert forall|i: int|
            0 <= i < start + 1 || start + 1 + trimmed.len() <= i < text.len() implies is_white_space(
            #[trigger] text[i],
        ) by {
            if i > 0 {
                assert(later[i - 1] == text[i]);
            }
        }
        assert(is_trimmed_at(trimmed, text, start + 1));
    } else {
        lemma_trimmed_end(text);
    }
}

/// A text that does not start with white space, without the white space at its end.
proof fn lemma_trimmed_end(text: Seq<char>)
    requires
        text.len() == 0 || !is_white_space(text[0]),
    ensures
        is_trimmed_at(trim_end(text), text, 0),
    decreases text.len(),
{
    if text.len() > 0 && is_white_space(text.last()) {
        let earlier = text.drop_last();
        lemma_trimmed_end(earlier);
        let trimmed = trim_end(text);
        assert(trimmed =~= text.subrange(0, trimmed.len() as int));
        assert forall|i: int| trimmed.len() <= i < text.len() implies is_white_space(
            #[trigger] text[i],
        ) by {
            if i < earlier.len() {
                assert(earlier[i] == text[i]);
            }
        }
    } else {
        assert(text =~= text.subrange(0, text.len() as int));
    }
}

/// Texts are the same if they have the same characters, and a text starts with another if something,
/// or nothing, behind the other makes it that text.
pub proof fn law_texts_are_held_against_each_other(
    left: &str,
    right: &str,
    equal: bool,
    starts: bool,
    behind: Seq<char>,
)
    requires
        call_ensures(same, (left, right), equal),
        call_ensures(starts_with, (left, right), starts),
    ensures
        equal == (left@ == right@),
        left@ == right@ + behind ==> starts,
        starts ==> left@ == right@ + left@.skip(right@.len() as int),
{
    if left@ == right@ + behind {
        assert(left@.subrange(0, right@.len() as int) =~= right@);
    }
    if starts {
        assert(left@ =~= right@ + left@.skip(right@.len() as int));
    }
}

} // verus!
