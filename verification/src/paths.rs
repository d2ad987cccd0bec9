//! Decimal numbers in file and directory names, and the names themselves.

use vstd::prelude::*;
use vstd::string::StringExecFns;

verus! {

/// The character of a decimal digit.
pub open spec fn digit_char(d: nat) -> char {
    if d == 0 {
        '0'
    } else if d == 1 {
        '1'
    } else if d == 2 {
        '2'
    } else if d == 3 {
        '3'
    } else if d == 4 {
        '4'
    } else if d == 5 {
        '5'
    } else if d == 6 {
        '6'
    } else if d == 7 {
        '7'
    } else if d == 8 {
        '8'
    } else {
        '9'
    }
}

/// The value of a decimal digit character, if it is one.
pub open spec fn digit_value(c: char) -> Option<nat> {
    if c == '0' {
        Some(0)
    } else if c == '1' {
        Some(1)
    } else if c == '2' {
        Some(2)
    } else if c == '3' {
        Some(3)
    } else if c == '4' {
        Some(4)
    } else if c == '5' {
        Some(5)
    } else if c == '6' {
        Some(6)
    } else if c == '7' {
        Some(7)
    } else if c == '8' {
        Some(8)
    } else if c == '9' {
        Some(9)
    } else {
        None
    }
}

/// A number in decimal, without leading zeros; zero is "0".
pub open spec fn decimal(n: nat) -> Seq<char>
    decreases n,
{
    if n < 10 {
        seq![digit_char(n)]
    } else {
        decimal(n / 10).push(digit_char(n % 10))
    }
}

/// The number that a text of decimal digits stands for; `None` for the empty text and
/// for a text with any other character.
pub open spec fn decimal_value(s: Seq<char>) -> Option<nat>
    decreases s.len(),
{
    if s.len() == 0 {
        None
    } else if s.len() == 1 {
        digit_value(s[0])
    } else {
        match (decimal_value(s.drop_last()), digit_value(s.last())) {
            (Some(head), Some(d)) => Some(head * 10 + d),
            _ => None,
        }
    }
}

/// A number written in decimal reads back as itself.
pub proof fn lemma_decimal_round_trip(n: nat)
    ensures
        decimal_value(decimal(n)) == Some(n),
        decimal(n).len() > 0,
    decreases n,
{
    if n < 10 {
        assert(decimal(n).len() == 1);
        assert(decimal(n)[0] == digit_char(n));
    } else {
        lemma_decimal_round_trip(n / 10);
        let s = decimal(n);
        assert(s.drop_last() =~= decimal(n / 10));
        assert(s.last() == digit_char(n % 10));
        assert(digit_value(digit_char(n % 10)) == Some(n % 10));
    }
}

/// The text of one decimal digit.
fn digit_str(d: u64) -> (s: &'static str)
    requires
        d < 10,
    ensures
        s@ == seq![digit_char(d as nat)],
{
    proof {
        reveal_strlit("0");
        reveal_strlit("1");
        reveal_strlit("2");
        reveal_strlit("3");
        reveal_strlit("4");
        reveal_strlit("5");
        reveal_strlit("6");
        reveal_strlit("7");
        reveal_strlit("8");
        reveal_strlit("9");
    }
    let s = if d == 0 {
        "0"
    } else if d == 1 {
        "1"
    } else if d == 2 {
        "2"
    } else if d == 3 {
        "3"
    } else if d == 4 {
        "4"
    } else if d == 5 {
        "5"
    } else if d == 6 {
        "6"
    } else if d == 7 {
        "7"
    } else if d == 8 {
        "8"
    } else {
        "9"
    };
    assert(s@ =~= seq![digit_char(d as nat)]);
    s
}

fn value_of(c: char) -> (r: Option<u64>)
    ensures
        match r {
            Some(d) => digit_value(c) == Some(d as nat) && d < 10,
            None => digit_value(c) is None,
        },
{
    if c == '0' {
        Some(0)
    } else if c == '1' {
        Some(1)
    } else if c == '2' {
        Some(2)
    } else if c == '3' {
        Some(3)
    } else if c == '4' {
        Some(4)
    } else if c == '5' {
        Some(5)
    } else if c == '6' {
        Some(6)
    } else if c == '7' {
        Some(7)
    } else if c == '8' {
        Some(8)
    } else if c == '9' {
        Some(9)
    } else {
        None
    }
}

/// Writes a number in decimal.
pub fn decimal_string(n: u64) -> (s: String)
    ensures
        s@ == decimal(n as nat),
    decreases n,
{
    if n < 10 {
        digit_str(n).to_owned()
    } else {
        let head = decimal_string(n / 10);
        let s = head.concat(digit_str(n % 10));
        assert(s@ =~= decimal((n / 10) as nat).push(digit_char((n % 10) as nat)));
        s
    }
}

/// A signed number in decimal: a minus sign before the magnitude of a negative one.
pub open spec fn signed_decimal(n: int) -> Seq<char> {
    if n < 0 {
        "-"@ + decimal((-n) as nat)
    } else {
        decimal(n as nat)
    }
}

/// Writes a signed number in decimal.
pub fn signed_decimal_string(n: i64) -> (s: String)
    ensures
        s@ == signed_decimal(n as int),
{
    if n < 0 {
        let magnitude: u64 = if n == i64::MIN {
            9223372036854775808u64
        } else {
            (-n) as u64
        };
        "-".to_owned().concat(decimal_string(magnitude).as_str())
    } else {
        decimal_string(n as u64)
    }
}

/// Reads a number written in decimal digits. The empty text, a text with any other
/// character, and a number beyond 64 bits give `None`.
pub fn parse_decimal(s: &str) -> (r: Option<u64>)
    ensures
        match r {
            Some(n) => decimal_value(s@) == Some(n as nat),
            None => decimal_value(s@) is None || decimal_value(s@)->Some_0 > u64::MAX,
        },
{
    let len = s.unicode_len();
    if len == 0 {
        return None;
    }
    let mut acc: u64 = 0;
    let mut i: usize = 0;
    while i < len
        invariant
            0 <= i <= len,
            len == s@.len(),
            i > 0 ==> decimal_value(s@.take(i as int)) == Some(acc as nat),
            i == 0 ==> acc == 0,
        decreases len - i,
    {
        let c = s.get_char(i);
        proof {
            let upto = s@.take(i + 1);
            assert(upto.drop_last() =~= s@.take(i as int));
            assert(upto.last() == s@[i as int]);
            if i == 0 {
                assert(upto.len() == 1);
                assert(upto[0] == s@[0]);
            }
        }
        match value_of(c) {
            Some(d) => {
                if acc > (u64::MAX - d) / 10 {
                    proof {
                        lemma_value_grows(s@, (i + 1) as int);
                    }
                    return None;
                }
                acc = acc * 10 + d;
            },
            None => {
                proof {
                    lemma_value_fails(s@, (i + 1) as int);
                }
                return None;
            },
        }
        i += 1;
    }
    assert(s@.take(i as int) == s@);
    Some(acc)
}

/// Where a prefix is not a number, the whole text is not.
proof fn lemma_value_fails(s: Seq<char>, n: int)
    requires
        0 < n <= s.len(),
        decimal_value(s.take(n)) is None,
    ensures
        decimal_value(s) is None,
    decreases s.len() - n,
{
    if n < s.len() {
        let longer = s.take(n + 1);
        assert(longer.drop_last() =~= s.take(n));
        assert(decimal_value(longer) is None);
        lemma_value_fails(s, n + 1);
    } else {
        assert(s.take(n) =~= s);
    }
}

/// Where a prefix stands for a number beyond 64 bits, the whole text does not stand
/// for one within.
proof fn lemma_value_grows(s: Seq<char>, n: int)
    requires
        0 < n <= s.len(),
        decimal_value(s.take(n)) is Some ==> decimal_value(s.take(n))->Some_0 > u64::MAX,
    ensures
        decimal_value(s) is Some ==> decimal_value(s)->Some_0 > u64::MAX,
    decreases s.len() - n,
{
    if n < s.len() {
        let longer = s.take(n + 1);
        assert(longer.drop_last() =~= s.take(n));
        if decimal_value(longer) is Some {
            assert(decimal_value(s.take(n)) is Some);
            assert(decimal_value(longer)->Some_0 >= decimal_value(s.take(n))->Some_0 * 10);
        }
        lemma_value_grows(s, n + 1);
    } else {
        assert(s.take(n) =~= s);
    }
}

/// The directory of a collection under the storage root.
pub open spec fn collection_dir(root: Seq<char>, collection: Seq<char>) -> Seq<char> {
    root + "/storage/"@ + collection
}

/// The directory of a bucket.
pub open spec fn bucket_dir(root: Seq<char>, collection: Seq<char>, bucket: Seq<char>) -> Seq<char> {
    collection_dir(root, collection) + "/"@ + bucket
}

/// The name of the file that holds the record `id`.
pub open spec fn file_name(id: u64) -> Seq<char> {
    decimal(id as nat) + ".bin"@
}

/// The file name for a record.
pub fn file_name_string(id: u64) -> (s: String)
    ensures
        s@ == file_name(id),
{
    decimal_string(id).concat(".bin")
}

/// Whether `s` ends with `suffix`, character by character.
pub fn ends_with(s: &str, suffix: &str) -> (b: bool)
    ensures
        b == (suffix@.len() <= s@.len() && s@.subrange(s@.len() - suffix@.len(), s@.len() as int)
            == suffix@),
{
    let n = s.unicode_len();
    let m = suffix.unicode_len();
    if m > n {
        return false;
    }
    crate::text::str_eq(s.substring_char(n - m, n), suffix)
}

/// Whether `s` begins with `prefix`, character by character.
pub fn starts_with(s: &str, prefix: &str) -> (b: bool)
    ensures
        b == (prefix@.len() <= s@.len() && s@.subrange(0, prefix@.len() as int) == prefix@),
{
    let n = s.unicode_len();
    let m = prefix.unicode_len();
    if m > n {
        return false;
    }
    crate::text::str_eq(s.substring_char(0, m), prefix)
}

/// The identifier that a record's file name stands for: the decimal number before
/// `.bin`, or the whole name where that ending is missing.
pub open spec fn file_id(name: Seq<char>) -> Option<nat> {
    if 4 <= name.len() && name.subrange(name.len() - 4, name.len() as int) == ".bin"@ {
        decimal_value(name.subrange(0, name.len() - 4))
    } else {
        decimal_value(name)
    }
}

/// Reads a record's identifier from its file name.
pub fn parse_file_name(name: &str) -> (r: Option<u64>)
    ensures
        match r {
            Some(id) => file_id(name@) == Some(id as nat),
            None => file_id(name@) is None || file_id(name@)->Some_0 > u64::MAX,
        },
{
    proof {
        reveal_strlit(".bin");
        assert(".bin"@.len() == 4);
    }
    if ends_with(name, ".bin") {
        let n = name.unicode_len();
        parse_decimal(name.substring_char(0, n - 4))
    } else {
        parse_decimal(name)
    }
}

/// A record's file name reads back as the record's identifier.
pub proof fn lemma_file_name_round_trip(id: u64)
    ensures
        file_id(file_name(id)) == Some(id as nat),
{
    reveal_strlit(".bin");
    let d = decimal(id as nat);
    let name = file_name(id);
    lemma_decimal_round_trip(id as nat);
    assert(".bin"@.len() == 4);
    assert(name.subrange(name.len() - 4, name.len() as int) =~= ".bin"@);
    assert(name.subrange(0, name.len() - 4) =~= d);
}

/// Whether a directory name is a bucket's: a decimal number within 64 bits. The
/// reserved name `vectors` is not one.
pub fn is_bucket_dir_name(name: &str) -> (b: bool)
    ensures
        b == (decimal_value(name@) is Some && decimal_value(name@)->Some_0 <= u64::MAX),
{
    parse_decimal(name).is_some()
}

} // verus!
