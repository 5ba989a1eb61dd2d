//! Text, character by character.

use vstd::prelude::*;
use vstd::string::{StrSliceExecFns, StringExecFns};

verus! {

/// Whether two texts are the same.
pub fn same_text(a: &str, b: &str) -> (r: bool)
    ensures
        r == (a@ == b@),
{
    let len: usize = a.unicode_len();
    if len != b.unicode_len() {
        return false;
    }
    let mut i: usize = 0;
    while i < len
        invariant
            i <= len,
            len == a@.len(),
            len == b@.len(),
            a@.take(i as int) == b@.take(i as int),
        decreases len - i,
    {
        if a.get_char(i) != b.get_char(i) {
            return false;
        }
        proof {
            assert(a@.take(i + 1) =~= a@.take(i as int).push(a@[i as int]));
            assert(b@.take(i + 1) =~= b@.take(i as int).push(b@[i as int]));
        }
        i += 1;
    }
    proof {
        assert(a@.take(i as int) =~= a@);
        assert(b@.take(i as int) =~= b@);
    }
    true
}

/// Whether `s` begins with `prefix`.
pub open spec fn starts_with_spec(s: Seq<char>, prefix: Seq<char>) -> bool {
    prefix.len() <= s.len() && s.take(prefix.len() as int) == prefix
}

pub fn starts_with(s: &str, prefix: &str) -> (r: bool)
    ensures
        r == starts_with_spec(s@, prefix@),
{
    let len: usize = prefix.unicode_len();
    if len > s.unicode_len() {
        return false;
    }
    same_text(s.substring_char(0, len), prefix)
}

/// A letter from A to Z as its lower-case letter, and every other character as it is.
pub open spec fn lower(c: char) -> char {
    if 'A' <= c <= 'Z' {
        (c as u32 + 32) as char
    } else {
        c
    }
}

/// `s` with its letters from A to Z in lower case.
pub open spec fn lowered(s: Seq<char>) -> Seq<char> {
    s.map_values(|c: char| lower(c))
}

fn lower_code(c: char) -> (r: u32)
    ensures
        r == lower(c) as u32,
{
    let code: u32 = c as u32;
    if 65 <= code && code <= 90 {
        code + 32
    } else {
        code
    }
}

/// Whether `s` is `name`, whatever the case of its letters from A to Z.
pub fn is_name(s: &str, name: &str) -> (r: bool)
    ensures
        r == (lowered(s@) == name@),
{
    let len: usize = s.unicode_len();
    if len != name.unicode_len() {
        assert(lowered(s@).len() != name@.len());
        return false;
    }
    let mut i: usize = 0;
    while i < len
        invariant
            i <= len,
            len == s@.len(),
            len == name@.len(),
            forall|j: int| 0 <= j < i ==> lower(#[trigger] s@[j]) == name@[j],
        decreases len - i,
    {
        let code: u32 = lower_code(s.get_char(i));
        let wanted: u32 = name.get_char(i) as u32;
        if code != wanted {
            assert(lowered(s@)[i as int] != name@[i as int]);
            return false;
        }
        i += 1;
    }
    assert(lowered(s@) =~= name@);
    true
}

/// The characters of `n` in decimal.
pub open spec fn decimal(n: nat) -> Seq<char>
    decreases n,
{
    if n < 10 {
        seq![(48 + n) as char]
    } else {
        decimal(n / 10).push((48 + n % 10) as char)
    }
}

fn digit(d: u32) -> (r: &'static str)
    requires
        d < 10,
    ensures
        r@ == seq![(48 + d) as char],
{
    proof {
        reveal_strlit("0");
        reveal_strlit("1");
        reveal_strlit("2");
        reveal_strlit("3");
        reveal_strlit("4");
        reveal_strlit("5");
        reveal_strlit("6");
        reveal_strlit("7");
        reveal_strlit("8");
        reveal_strlit("9");
    }
    let r = if d == 0 {
        "0"
    } else if d == 1 {
        "1"
    } else if d == 2 {
        "2"
    } else if d == 3 {
        "3"
    } else if d == 4 {
        "4"
    } else if d == 5 {
        "5"
    } else if d == 6 {
        "6"
    } else if d == 7 {
        "7"
    } else if d == 8 {
        "8"
    } else {
        "9"
    };
    assert(r@ =~= seq![(48 + d) as char]);
    r
}

/// `n` in decimal.
pub fn decimal_text(n: u32) -> (r: String)
    ensures
        r@ == decimal(n as nat),
    decreases n,
{
    if n < 10 {
        let mut r = String::new();
        r.append(digit(n));
        assert(r@ =~= decimal(n as nat));
        return r;
    }
    let mut r = decimal_text(n / 10);
    r.append(digit(n % 10));
    assert(r@ =~= decimal(n as nat));
    r
}

/// The characters of `s`.
pub fn chars_of(s: &str) -> (r: Vec<char>)
    ensures
        r@ == s@,
{
    let len: usize = s.unicode_len();
    let mut r: Vec<char> = Vec::new();
    let mut i: usize = 0;
    while i < len
        invariant
            i <= len,
            len == s@.len(),
            r@ == s@.take(i as int),
        decreases len - i,
    {
        r.push(s.get_char(i));
        i += 1;
        assert(r@ =~= s@.take(i as int));
    }
    assert(r@ =~= s@);
    r
}

pub open spec fn is_digit(c: char) -> bool {
    '0' <= c <= '9'
}

/// Whether all characters are digits.
pub open spec fn all_digits(s: Seq<char>) -> bool {
    forall|i: int| 0 <= i < s.len() ==> is_digit(#[trigger] s[i])
}

/// The number that the digits give.
pub open spec fn value(s: Seq<char>) -> nat
    decreases s.len(),
{
    if s.len() == 0 {
        0
    } else {
        value(s.drop_last()) * 10 + (s.last() as nat - 48) as nat
    }
}

/// The digits of a number: `s` without a leading plus sign.
pub open spec fn unsigned_part(s: Seq<char>) -> Seq<char> {
    if s.len() > 0 && s[0] == '+' {
        s.skip(1)
    } else {
        s
    }
}

/// The number that `s` is in decimal, where it is one that fits.
pub open spec fn parse_u32_spec(s: Seq<char>) -> Option<u32> {
    let digits = unsigned_part(s);
    if digits.len() > 0 && all_digits(digits) && value(digits) <= u32::MAX {
        Some(value(digits) as u32)
    } else {
        None
    }
}

proof fn lemma_value_grows(s: Seq<char>, k: int)
    requires
        0 <= k <= s.len(),
        all_digits(s),
    ensures
        value(s.take(k)) <= value(s),
    decreases s.len(),
{
    if k == s.len() {
        assert(s.take(k) =~= s);
    } else {
        let shorter = s.drop_last();
        assert(all_digits(shorter)) by {
            assert forall|i: int| 0 <= i < shorter.len() implies is_digit(
                #[trigger] shorter[i],
            ) by {
                assert(shorter[i] == s[i]);
            }
        }
        lemma_value_grows(shorter, k);
        assert(shorter.take(k) =~= s.take(k));
    }
}

fn code_of(c: char) -> (r: u32)
    ensures
        r == c as nat,
        is_digit(c) <==> 48 <= r <= 57,
{
    c as u32
}

/// The number that `digits` give, where they are digits and it is at most `limit`.
pub open spec fn bounded_value(digits: Seq<char>, limit: int) -> Option<int> {
    if digits.len() > 0 && all_digits(digits) && value(digits) <= limit {
        Some(value(digits) as int)
    } else {
        None
    }
}

/// The number that the characters from `first` to before `end` are in decimal, where it
/// is at most `limit`.
fn parse_bounded(s: &Vec<char>, first: usize, end: usize, limit: u64) -> (r: Option<u64>)
    requires
        first <= end <= s.len(),
    ensures
        match r {
            Some(total) => bounded_value(s@.subrange(first as int, end as int), limit as int)
                == Some(total as int),
            None => bounded_value(s@.subrange(first as int, end as int), limit as int) is None,
        },
{
    let ghost digits = s@.subrange(first as int, end as int);
    if first == end {
        return None;
    }
    let mut total: u64 = 0;
    let mut i: usize = first;
    assert(digits.take(0) =~= Seq::<char>::empty());
    while i < end
        invariant
            first <= i <= end <= s.len(),
            digits == s@.subrange(first as int, end as int),
            all_digits(digits.take(i - first)),
            total == value(digits.take(i - first)),
            i > first ==> total <= limit,
        decreases end - i,
    {
        let c: char = s[i];
        let code: u32 = code_of(c);
        let ghost k = i - first;
        proof {
            assert(digits[k] == c);
            assert(digits.take(k + 1).drop_last() =~= digits.take(k));
            assert(digits.take(k + 1).last() == digits[k]);
        }
        if code < 48 || code > 57 {
            assert(!is_digit(digits[k]));
            return None;
        }
        let next: u128 = total as u128 * 10 + (code - 48) as u128;
        proof {
            assert(is_digit(digits[k]));
            assert(next == value(digits.take(k + 1)));
            assert forall|j: int| 0 <= j < k + 1 implies is_digit(
                #[trigger] digits.take(k + 1)[j],
            ) by {
                if j < k {
                    assert(digits.take(k)[j] == digits[j]);
                }
            }
        }
        if next > limit as u128 {
            proof {
                if all_digits(digits) {
                    lemma_value_grows(digits, k + 1);
                }
            }
            return None;
        }
        total = next as u64;
        i += 1;
    }
    proof {
        assert(digits.take(i - first) =~= digits);
    }
    Some(total)
}

/// The number that the characters from `start` to before `end` are in decimal.
pub fn parse_u32(s: &Vec<char>, start: usize, end: usize) -> (r: Option<u32>)
    requires
        start <= end <= s.len(),
    ensures
        r == parse_u32_spec(s@.subrange(start as int, end as int)),
{
    let first: usize = if start < end && s[start] == '+' { start + 1 } else { start };
    assert(unsigned_part(s@.subrange(start as int, end as int)) =~= s@.subrange(
        first as int,
        end as int,
    ));
    match parse_bounded(s, first, end, u32::MAX as u64) {
        Some(total) => Some(total as u32),
        None => None,
    }
}

/// The number that `s` is in decimal, where it is one that a count can hold.
pub open spec fn parse_count_spec(s: Seq<char>) -> Option<int> {
    bounded_value(unsigned_part(s), usize::MAX as int)
}

/// Reads a count, with or without a plus sign before it.
pub fn parse_count(text: &str) -> (r: Option<usize>)
    ensures
        match r {
            Some(total) => parse_count_spec(text@) == Some(total as int),
            None => parse_count_spec(text@) is None,
        },
{
    let s: Vec<char> = chars_of(text);
    let first: usize = if s.len() > 0 && s[0] == '+' { 1 } else { 0 };
    assert(unsigned_part(text@) =~= s@.subrange(first as int, s.len() as int));
    match parse_bounded(&s, first, s.len(), usize::MAX as u64) {
        Some(total) => Some(total as usize),
        None => None,
    }
}

/// The number that `s` is in decimal, with or without a sign before it, where it fits.
pub open spec fn parse_i32_spec(s: Seq<char>) -> Option<int> {
    if s.len() > 0 && s[0] == '-' {
        match bounded_value(s.skip(1), -i32::MIN) {
            Some(total) => Some(-total),
            None => None,
        }
    } else {
        bounded_value(unsigned_part(s), i32::MAX as int)
    }
}

/// Reads an integer, with or without a sign before it.
pub fn parse_i32(text: &str) -> (r: Option<i32>)
    ensures
        match r {
            Some(total) => parse_i32_spec(text@) == Some(total as int),
            None => parse_i32_spec(text@) is None,
        },
{
    let s: Vec<char> = chars_of(text);
    let negative: bool = s.len() > 0 && s[0] == '-';
    let signed: bool = negative || (s.len() > 0 && s[0] == '+');
    let first: usize = if signed { 1 } else { 0 };
    let limit: u64 = if negative { 0x8000_0000 } else { 0x7fff_ffff };
    proof {
        let part = s@.subrange(first as int, s.len() as int);
        if negative {
            assert(part =~= text@.skip(1));
        } else {
            assert(part =~= unsigned_part(text@));
        }
    }
    match parse_bounded(&s, first, s.len(), limit) {
        Some(total) => if negative {
            Some((-(total as i64)) as i32)
        } else {
            Some(total as i32)
        },
        None => None,
    }
}

/// The decimal of a number has digits alone, and gives the number back.
pub proof fn decimal_gives_the_number_back(n: nat)
    ensures
        decimal(n).len() > 0,
        all_digits(decimal(n)),
        value(decimal(n)) == n,
        n <= u32::MAX ==> parse_u32_spec(decimal(n)) == Some(n as u32),
    decreases n,
{
    if n < 10 {
        let d = seq![(48 + n) as char];
        assert(decimal(n) =~= d);
        assert(d.drop_last() =~= Seq::<char>::empty());
        assert(d.last() as nat == 48 + n);
        assert(value(d.drop_last()) == 0);
    } else {
        decimal_gives_the_number_back(n / 10);
        let before = decimal(n / 10);
        assert(decimal(n).drop_last() =~= before);
        assert(decimal(n).last() as nat == 48 + n % 10);
        assert forall|i: int| 0 <= i < decimal(n).len() implies is_digit(
            #[trigger] decimal(n)[i],
        ) by {
            if i < before.len() {
                assert(decimal(n)[i] == before[i]);
            }
        }
    }
    assert(is_digit(decimal(n)[0]));
}

/// A text begins with its own beginning, and with no longer text.
pub proof fn texts_begin_with_their_beginning(prefix: Seq<char>, rest: Seq<char>, c: char)
    ensures
        starts_with_spec(prefix + rest, prefix),
        !starts_with_spec(prefix, prefix.push(c)),
        rest.len() > 0 && rest[0] != c ==> !starts_with_spec(prefix + rest, prefix.push(c)),
{
    assert((prefix + rest).take(prefix.len() as int) =~= prefix);
    if rest.len() > 0 && rest[0] != c {
        let longer = prefix.push(c);
        assert((prefix + rest).take(longer.len() as int)[prefix.len() as int] == rest[0]);
        assert(longer[prefix.len() as int] == c);
    }
}

/// Lowering moves each capital as far as it is from the first one, leaves every other
/// character, and changes nothing the second time.
pub proof fn lowering_keeps_the_place_in_the_alphabet(c: char, s: Seq<char>)
    ensures
        'A' <= c <= 'Z' ==> lower(c) as int - 'a' as int == c as int - 'A' as int,
        !('A' <= c <= 'Z') ==> lower(c) == c,
        lowered(lowered(s)) == lowered(s),
        lowered(s).len() == s.len(),
{
    assert forall|i: int| 0 <= i < s.len() implies lower(#[trigger] lowered(s)[i]) == lowered(
        s,
    )[i] by {
        assert(lowered(s)[i] == lower(s[i]));
    }
    assert(lowered(lowered(s)) =~= lowered(s));
}

/// A digit behind others makes them worth ten times as much.
pub proof fn digits_are_worth_ten_times_the_next(digits: Seq<char>, c: char)
    requires
        is_digit(c),
    ensures
        value(digits.push(c)) == value(digits) * 10 + (c as int - '0' as int),
{
    assert(digits.push(c).drop_last() =~= digits);
}

/// Numbers are read from their decimals, with a plus sign or without; with a minus sign
/// the opposite is. What does not fit is refused.
pub proof fn numbers_are_read_from_their_decimals(n: nat)
    ensures
        ({
            let plus = seq!['+'] + decimal(n);
            let minus = seq!['-'] + decimal(n);
            &&& n <= u32::MAX ==> parse_u32_spec(plus) == Some(n as u32)
            &&& n > u32::MAX ==> parse_u32_spec(decimal(n)) is None
            &&& n <= usize::MAX ==> parse_count_spec(decimal(n)) == Some(n as int)
                && parse_count_spec(plus) == Some(n as int)
            &&& n > usize::MAX ==> parse_count_spec(decimal(n)) is None
            &&& n <= 0x7fff_ffff ==> parse_i32_spec(decimal(n)) == Some(n as int)
                && parse_i32_spec(plus) == Some(n as int)
            &&& n <= 0x8000_0000 ==> parse_i32_spec(minus) == Some(-(n as int))
            &&& n > 0x7fff_ffff ==> parse_i32_spec(decimal(n)) is None
            &&& n > 0x8000_0000 ==> parse_i32_spec(minus) is None
            &&& parse_count_spec(minus) is None && parse_u32_spec(minus) is None
        }),
{
    decimal_gives_the_number_back(n);
    let digits = decimal(n);
    let plus = seq!['+'] + digits;
    let minus = seq!['-'] + digits;
    assert(is_digit(digits[0]));
    assert(plus[0] == '+' && minus[0] == '-');
    assert(plus.skip(1) =~= digits);
    assert(minus.skip(1) =~= digits);
    assert(!is_digit(minus[0]));
}

} // verus!
