//! Identifiers and keys: decimal numbers, padding ids and sink keys.

use vstd::prelude::*;

verus! {

/// The character of a decimal digit.
pub open spec fn digit_char(d: nat) -> char {
    if d == 0 {
        '0'
    } else if d == 1 {
        '1'
    } else if d == 2 {
        '2'
    } else if d == 3 {
        '3'
    } else if d == 4 {
        '4'
    } else if d == 5 {
        '5'
    } else if d == 6 {
        '6'
    } else if d == 7 {
        '7'
    } else if d == 8 {
        '8'
    } else {
        '9'
    }
}

/// Whether a character is one of `0` to `9`.
pub open spec fn is_digit(c: char) -> bool {
    '0' <= c && c <= '9'
}

/// The decimal numeral of `n`, without leading zeros.
pub open spec fn decimal(n: nat) -> Seq<char>
    decreases n,
{
    if n < 10 {
        seq![digit_char(n)]
    } else {
        decimal(n / 10).push(digit_char(n % 10))
    }
}

/// The prefix that marks a padding id.
pub open spec fn dummy_prefix() -> Seq<char> {
    seq!['D', 'U', 'M', 'M', 'Y', '-']
}

/// The id of the padding sample at the given 1-based position of its batch.
pub open spec fn dummy_id(position: nat) -> Seq<char> {
    dummy_prefix() + decimal(position)
}

/// Whether an id starts with the padding prefix.
pub open spec fn has_dummy_prefix(id: Seq<char>) -> bool {
    id.len() >= 6 && id.subrange(0, 6) == dummy_prefix()
}

/// Whether an id is the padding prefix followed by one or more digits.
pub open spec fn is_dummy_form(id: Seq<char>) -> bool {
    &&& id.len() > 6
    &&& id.subrange(0, 6) == dummy_prefix()
    &&& forall|j: int| 6 <= j < id.len() ==> is_digit(#[trigger] id[j])
}

/// The key under which the record of a job is stored.
pub open spec fn sink_key(prefix: Seq<char>, id: Seq<char>) -> Seq<char> {
    prefix + seq![':'] + id
}

/// A decimal numeral is a non-empty run of digits.
pub proof fn lemma_decimal_digits(n: nat)
    ensures
        decimal(n).len() >= 1,
        forall|j: int| 0 <= j < decimal(n).len() ==> is_digit(#[trigger] decimal(n)[j]),
    decreases n,
{
    if n >= 10 {
        lemma_decimal_digits(n / 10);
    }
}

/// Every padding id is the padding prefix followed by one or more digits.
pub proof fn lemma_dummy_id_form(position: nat)
    ensures
        is_dummy_form(dummy_id(position)),
        has_dummy_prefix(dummy_id(position)),
{
    lemma_decimal_digits(position);
    let id = dummy_id(position);
    assert(id.subrange(0, 6) =~= dummy_prefix());
    assert forall|j: int| 6 <= j < id.len() implies is_digit(#[trigger] id[j]) by {
        assert(id[j] == decimal(position)[j - 6]);
    }
}

fn digit_str(d: usize) -> (r: &'static str)
    requires
        d < 10,
    ensures
        r@ == seq![digit_char(d as nat)],
{
    proof {
        reveal_strlit("0");
        reveal_strlit("1");
        reveal_strlit("2");
        reveal_strlit("3");
        reveal_strlit("4");
        reveal_strlit("5");
        reveal_strlit("6");
        reveal_strlit("7");
        reveal_strlit("8");
        reveal_strlit("9");
    }
    let r = if d == 0 {
        "0"
    } else if d == 1 {
        "1"
    } else if d == 2 {
        "2"
    } else if d == 3 {
        "3"
    } else if d == 4 {
        "4"
    } else if d == 5 {
        "5"
    } else if d == 6 {
        "6"
    } else if d == 7 {
        "7"
    } else if d == 8 {
        "8"
    } else {
        "9"
    };
    assert(r@ =~= seq![digit_char(d as nat)]);
    r
}

/// Appends the decimal numeral of `n` to `out`.
pub fn push_decimal(out: &mut String, n: usize)
    ensures
        final(out)@ == old(out)@ + decimal(n as nat),
    decreases n,
{
    if n >= 10 {
        push_decimal(out, n / 10);
    }
    out.append(digit_str(n % 10));
    assert(out@ =~= old(out)@ + decimal(n as nat));
}

/// The id of the padding sample at the given 1-based position of its batch.
pub fn make_dummy_id(position: usize) -> (r: String)
    ensures
        r@ == dummy_id(position as nat),
{
    proof {
        reveal_strlit("DUMMY-");
    }
    let mut out = String::from_str("DUMMY-");
    assert(out@ =~= dummy_prefix());
    push_decimal(&mut out, position);
    out
}

/// The key under which the record of job `id` is stored: the prefix, a colon
/// and the id.
pub fn make_sink_key(prefix: &str, id: &str) -> (r: String)
    ensures
        r@ == sink_key(prefix@, id@),
{
    proof {
        reveal_strlit(":");
    }
    let mut out = String::from_str(prefix);
    out.append(":");
    out.append(id);
    assert(out@ =~= sink_key(prefix@, id@));
    out
}

/// Whether an id starts with the padding prefix.
pub fn is_dummy(id: &str) -> (r: bool)
    ensures
        r == has_dummy_prefix(id@),
{
    if id.unicode_len() < 6 {
        return false;
    }
    let r = id.get_char(0) == 'D' && id.get_char(1) == 'U' && id.get_char(2) == 'M' && id.get_char(
        3,
    ) == 'M' && id.get_char(4) == 'Y' && id.get_char(5) == '-';
    proof {
        if r {
            assert(id@.subrange(0, 6) =~= dummy_prefix());
        } else {
            let p = id@.subrange(0, 6);
            assert(p[0] == id@[0] && p[1] == id@[1] && p[2] == id@[2] && p[3] == id@[3] && p[4]
                == id@[4] && p[5] == id@[5]);
        }
    }
    r
}

/// Whether two strings hold the same characters.
pub fn same_text(a: &str, b: &str) -> (r: bool)
    ensures
        r == (a@ == b@),
{
    let x = String::from_str(a);
    let y = String::from_str(b);
    x == y
}

/// The element type tag of 32-bit IEEE-754 numbers.
pub open spec fn single_precision_tag() -> Seq<char> {
    "f32"@
}

/// The element type tag of 32-bit IEEE-754 numbers.
pub fn single_precision() -> (r: &'static str)
    ensures
        r@ == single_precision_tag(),
{
    "f32"
}

} // verus!
