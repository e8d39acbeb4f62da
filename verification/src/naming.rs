//! Names of the log files and the decimal indices inside them.
//!
//! The current file is `<suffix>.current.log`; the file rolled over with
//! index `n > 0` is `<suffix>.<n>.log`, `n` written in decimal.

use vstd::prelude::*;
use vstd::string::StrSliceExecFns;
use vstd::string::StringExecFns;

verus! {

/// The ASCII digit for `d`, for `d < 10`.
pub open spec fn digit_char(d: int) -> char {
    ('0' as int + d) as char
}

/// Whether `c` is one of the ASCII digits `0`..`9`.
pub open spec fn is_ascii_digit(c: char) -> bool {
    '0' <= c && c <= '9'
}

/// The value of an ASCII digit.
pub open spec fn digit_value(c: char) -> int {
    c as int - '0' as int
}

/// The decimal representation of `n`, without leading zeros (`0` is `"0"`).
pub open spec fn decimal(n: nat) -> Seq<char>
    decreases n,
{
    if n < 10 {
        seq![digit_char(n as int)]
    } else {
        decimal(n / 10).push(digit_char((n % 10) as int))
    }
}

/// The number that a string of ASCII digits denotes.
pub open spec fn decimal_value(s: Seq<char>) -> int
    decreases s.len(),
{
    if s.len() == 0 {
        0
    } else {
        decimal_value(s.drop_last()) * 10 + digit_value(s.last())
    }
}

/// Whether every character of `s` is an ASCII digit.
pub open spec fn all_ascii_digits(s: Seq<char>) -> bool {
    forall|i: int| 0 <= i < s.len() ==> is_ascii_digit(#[trigger] s[i])
}

/// What reading `s` as an unsigned index gives: an optional `+` followed by
/// at least one ASCII digit, the whole denoting a number that fits in a
/// `usize`; `None` for anything else.
pub open spec fn parsed_index(s: Seq<char>) -> Option<usize> {
    let digits = if s.len() > 1 && s[0] == '+' { s.drop_first() } else { s };
    if digits.len() > 0 && all_ascii_digits(digits) && decimal_value(digits) <= usize::MAX {
        Some(decimal_value(digits) as usize)
    } else {
        None
    }
}

/// The name of the file with index `n`: `<suffix>.current.log` for `n == 0`,
/// `<suffix>.<n>.log` otherwise.
pub open spec fn file_name(suffix: Seq<char>, n: nat) -> Seq<char> {
    if n > 0 {
        suffix + seq!['.'] + decimal(n) + seq!['.', 'l', 'o', 'g']
    } else {
        suffix + seq!['.', 'c', 'u', 'r', 'r', 'e', 'n', 't', '.', 'l', 'o', 'g']
    }
}

proof fn lemma_decimal_digits(n: nat)
    ensures
        decimal(n).len() > 0,
        all_ascii_digits(decimal(n)),
        decimal_value(decimal(n)) == n,
        decimal(n)[0] != '+',
    decreases n,
{
    let d: int = (n % 10) as int;
    assert(digit_value(digit_char(d)) == d);
    if n < 10 {
        assert(decimal(n).drop_last() =~= Seq::<char>::empty());
        assert(decimal_value(Seq::<char>::empty()) == 0);
        assert(decimal(n).last() == digit_char(d));
    } else {
        lemma_decimal_digits(n / 10);
        let s = decimal(n);
        assert(s.drop_last() =~= decimal(n / 10));
        assert((n / 10) * 10 + d == n);
        assert(s.last() == digit_char(d));
        assert(decimal_value(s) == decimal_value(decimal(n / 10)) * 10 + d);
        assert forall|i: int| 0 <= i < s.len() implies is_ascii_digit(#[trigger] s[i]) by {
            if i < s.len() - 1 {
                assert(s[i] == decimal(n / 10)[i]);
            }
        }
    }
}

proof fn lemma_decimal_value_nonneg(s: Seq<char>)
    requires
        all_ascii_digits(s),
    ensures
        decimal_value(s) >= 0,
    decreases s.len(),
{
    if s.len() > 0 {
        assert(is_ascii_digit(s[s.len() - 1]));
        lemma_decimal_value_nonneg(s.drop_last());
    }
}

/// Reading digits from left to right: the value of a prefix extended by one
/// digit is ten times the prefix's value plus that digit.
proof fn lemma_decimal_value_step(s: Seq<char>, i: int)
    requires
        0 <= i < s.len(),
    ensures
        decimal_value(s.subrange(0, i + 1)) == decimal_value(s.subrange(0, i)) * 10 + digit_value(s[i]),
{
    assert(s.subrange(0, i + 1).drop_last() =~= s.subrange(0, i));
}

/// A digit string denotes at least as much as any of its prefixes.
proof fn lemma_decimal_value_prefix(s: Seq<char>, i: int)
    requires
        0 <= i <= s.len(),
        all_ascii_digits(s),
    ensures
        decimal_value(s.subrange(0, i)) <= decimal_value(s),
    decreases s.len() - i,
{
    if i < s.len() {
        lemma_decimal_value_step(s, i);
        assert(is_ascii_digit(s[i]));
        let p = s.subrange(0, i);
        assert(all_ascii_digits(p));
        lemma_decimal_value_nonneg(p);
        lemma_decimal_value_prefix(s, i + 1);
    } else {
        assert(s.subrange(0, i) =~= s);
    }
}

/// The decimal text of an index reads back as that index.
pub proof fn lemma_index_text_round_trip(n: usize)
    ensures
        parsed_index(decimal(n as nat)) == Some(n),
{
    lemma_decimal_digits(n as nat);
}

proof fn lemma_leading_zero_value(s: Seq<char>)
    ensures
        decimal_value(seq!['0'] + s) == decimal_value(s),
    decreases s.len(),
{
    if s.len() == 0 {
        assert((seq!['0'] + s).drop_last() =~= Seq::<char>::empty());
        assert(decimal_value(Seq::<char>::empty()) == 0);
        assert(digit_value('0') == 0);
        assert((seq!['0'] + s).last() == '0');
    } else {
        lemma_leading_zero_value(s.drop_last());
        assert((seq!['0'] + s).drop_last() =~= seq!['0'] + s.drop_last());
        assert((seq!['0'] + s).last() == s.last());
    }
}

/// Leading zeros do not change the index a text without a sign reads as.
pub proof fn lemma_leading_zero_ignored(s: Seq<char>)
    requires
        s.len() > 0,
        s[0] != '+',
    ensures
        parsed_index(seq!['0'] + s) == parsed_index(s),
{
    let t = seq!['0'] + s;
    lemma_leading_zero_value(s);
    assert(t.len() > 1 && t[0] != '+');
    {
        assert(all_ascii_digits(t) <==> all_ascii_digits(s)) by {
            if all_ascii_digits(s) {
                assert forall|i: int| 0 <= i < t.len() implies is_ascii_digit(#[trigger] t[i]) by {
                    if i > 0 {
                        assert(t[i] == s[i - 1]);
                    }
                }
            }
            if all_ascii_digits(t) {
                assert forall|i: int| 0 <= i < s.len() implies is_ascii_digit(#[trigger] s[i]) by {
                    assert(t[i + 1] == s[i]);
                }
            }
        }
    }
}

/// A leading `+` is accepted: `+n` reads as `n`.
pub proof fn lemma_plus_sign_accepted(n: usize)
    ensures
        parsed_index(seq!['+'] + decimal(n as nat)) == Some(n),
{
    lemma_decimal_digits(n as nat);
    assert((seq!['+'] + decimal(n as nat)).drop_first() =~= decimal(n as nat));
}

/// A text with a character that is neither a digit nor a leading `+` does not
/// read as an index.
pub proof fn lemma_non_digit_rejected(s: Seq<char>, i: int)
    requires
        0 <= i < s.len(),
        !is_ascii_digit(s[i]),
        !(i == 0 && s[0] == '+'),
    ensures
        parsed_index(s) is None,
{
    if s.len() > 1 && s[0] == '+' {
        assert(s.drop_first()[i - 1] == s[i]);
    }
}

/// Distinct indices name distinct files: rolling over never reuses the name
/// of another index, and no numbered file is named like the current one.
pub proof fn lemma_file_names_distinct(suffix: Seq<char>, a: nat, b: nat)
    requires
        a != b,
    ensures
        file_name(suffix, a) != file_name(suffix, b),
{
    lemma_decimal_digits(a);
    lemma_decimal_digits(b);
    let sl: int = suffix.len() as int;
    let na = file_name(suffix, a);
    let nb = file_name(suffix, b);
    if na == nb {
        if a > 0 && b > 0 {
            let da = decimal(a);
            let db = decimal(b);
            assert(na.len() == sl + 1 + da.len() + 4);
            assert(nb.len() == sl + 1 + db.len() + 4);
            assert(da.len() == db.len());
            assert(na.subrange(sl + 1, sl + 1 + da.len()) =~= da);
            assert(nb.subrange(sl + 1, sl + 1 + db.len()) =~= db);
        } else if a == 0 {
            assert(na[sl + 1] == 'c');
            assert(nb[sl + 1] == decimal(b)[0]);
            assert(is_ascii_digit(decimal(b)[0]));
        } else {
            assert(nb[sl + 1] == 'c');
            assert(na[sl + 1] == decimal(a)[0]);
            assert(is_ascii_digit(decimal(a)[0]));
        }
    }
}

/// The one-character text of the digit `d`.
fn digit_text(d: usize) -> (t: &'static str)
    requires
        d < 10,
    ensures
        t@ == seq![digit_char(d as int)],
{
    proof {
        reveal_strlit("0");
        reveal_strlit("1");
        reveal_strlit("2");
        reveal_strlit("3");
        reveal_strlit("4");
        reveal_strlit("5");
        reveal_strlit("6");
        reveal_strlit("7");
        reveal_strlit("8");
        reveal_strlit("9");
    }
    match d {
        0 => "0",
        1 => "1",
        2 => "2",
        3 => "3",
        4 => "4",
        5 => "5",
        6 => "6",
        7 => "7",
        8 => "8",
        _ => "9",
    }
}

/// Appends the decimal representation of `n` to `out`.
fn push_decimal(out: &mut String, n: usize)
    ensures
        final(out)@ == old(out)@ + decimal(n as nat),
    decreases n,
{
    if n >= 10 {
        push_decimal(out, n / 10);
    }
    out.append(digit_text(n % 10));
    proof {
        if n >= 10 {
            assert(decimal(n as nat) == decimal((n / 10) as nat).push(digit_char((n % 10) as int)));
        }
    }
}

/// Determines the final filename, where `n == 0` indicates the current file.
pub fn file_name_for(suffix: &str, n: usize) -> (name: String)
    ensures
        name@ == file_name(suffix@, n as nat),
{
    let mut name = suffix.to_owned();
    proof {
        reveal_strlit(".");
        reveal_strlit(".log");
        reveal_strlit(".current.log");
    }
    if n > 0 {
        name.append(".");
        push_decimal(&mut name, n);
        name.append(".log");
    } else {
        name.append(".current.log");
    }
    name
}

/// Reads `text` as an unsigned index the way `usize::from_str` does: an
/// optional `+` and then ASCII digits denoting a value that fits in a `usize`.
pub fn parse_index(text: &str) -> (index: Option<usize>)
    ensures
        index == parsed_index(text@),
{
    let len: usize = text.unicode_len();
    let start: usize = if len > 1 && text.get_char(0) == '+' { 1 } else { 0 };
    let ghost digits = text@.subrange(start as int, len as int);
    proof {
        if start == 1 {
            assert(digits =~= text@.drop_first());
        } else {
            assert(digits =~= text@);
        }
    }
    let ghost expected = if digits.len() > 0 && all_ascii_digits(digits) && decimal_value(digits) <= usize::MAX {
        Some(decimal_value(digits) as usize)
    } else {
        None::<usize>
    };
    assert(expected == parsed_index(text@));
    if start == len {
        return None;
    }
    let mut value: usize = 0;
    let mut i: usize = start;
    while i < len
        invariant
            start <= i <= len,
            len == text@.len(),
            start < len,
            digits == text@.subrange(start as int, len as int),
            all_ascii_digits(digits.subrange(0, i - start)),
            value == decimal_value(digits.subrange(0, i - start)),
            expected == parsed_index(text@),
            expected == (if digits.len() > 0 && all_ascii_digits(digits) && decimal_value(digits) <= usize::MAX {
                Some(decimal_value(digits) as usize)
            } else {
                None::<usize>
            }),
        decreases len - i,
    {
        let c = text.get_char(i);
        if !('0' <= c && c <= '9') {
            proof {
                assert(digits[i - start] == c);
                assert(!is_ascii_digit(digits[i - start]));
            }
            return None;
        }
        let d: usize = (c as u32 - '0' as u32) as usize;
        proof {
            assert(digits[i - start] == c);
            lemma_decimal_value_step(digits, i - start);
            assert(digits.subrange(0, i - start + 1).drop_last() =~= digits.subrange(0, i - start));
            assert forall|k: int| 0 <= k < i - start + 1 implies is_ascii_digit(#[trigger] digits.subrange(0, i - start + 1)[k]) by {
                if k < i - start {
                    assert(digits.subrange(0, i - start + 1)[k] == digits.subrange(0, i - start)[k]);
                }
            }
        }
        let next: Option<usize> = match value.checked_mul(10) {
            Some(v) => v.checked_add(d),
            None => None,
        };
        match next {
            Some(v) => {
                value = v;
            },
            None => {
                proof {
                    assert(decimal_value(digits.subrange(0, i - start + 1)) == value * 10 + d);
                    assert(value * 10 + d > usize::MAX);
                    if all_ascii_digits(digits) {
                        lemma_decimal_value_prefix(digits, i - start + 1);
                    }
                }
                return None;
            },
        }
        i = i + 1;
    }
    proof {
        assert(digits.subrange(0, len - start) =~= digits);
    }
    Some(value)
}

} // verus!
