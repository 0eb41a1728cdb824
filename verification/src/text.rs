//! Small text builders: decimal numbers, the debug form of optional values,
//! and messages made of a topic and a detail.
use vstd::prelude::*;
use vstd::string::StringExecFns;

verus! {

/// The character of a decimal digit.
pub open spec fn digit_char(d: nat) -> char {
    if d == 0 {
        '0'
    } else if d == 1 {
        '1'
    } else if d == 2 {
        '2'
    } else if d == 3 {
        '3'
    } else if d == 4 {
        '4'
    } else if d == 5 {
        '5'
    } else if d == 6 {
        '6'
    } else if d == 7 {
        '7'
    } else if d == 8 {
        '8'
    } else {
        '9'
    }
}

/// The decimal form of `n`, without leading zeros.
pub open spec fn decimal(n: nat) -> Seq<char>
    decreases n,
{
    if n < 10 {
        seq![digit_char(n)]
    } else {
        decimal(n / 10).push(digit_char(n % 10))
    }
}

/// The value of a decimal digit character, or -1 for any other character.
pub open spec fn digit_value(c: char) -> int {
    if c == '0' {
        0
    } else if c == '1' {
        1
    } else if c == '2' {
        2
    } else if c == '3' {
        3
    } else if c == '4' {
        4
    } else if c == '5' {
        5
    } else if c == '6' {
        6
    } else if c == '7' {
        7
    } else if c == '8' {
        8
    } else if c == '9' {
        9
    } else {
        -1
    }
}

/// `c` is one of the ten decimal digits.
pub open spec fn is_digit(c: char) -> bool {
    digit_value(c) >= 0
}

/// The number that a string of decimal digits reads as.
pub open spec fn digits_value(s: Seq<char>) -> int
    decreases s.len(),
{
    if s.len() == 0 {
        0
    } else {
        digits_value(s.drop_last()) * 10 + digit_value(s.last())
    }
}

/// Law: the decimal form of `n` is its base-10 form: a non-empty string of
/// digits, without a leading zero unless it is the single digit `0`, that
/// reads back as `n`.
pub proof fn law_decimal_reads_back(n: nat)
    ensures
        decimal(n).len() > 0,
        forall|i: int| 0 <= i < decimal(n).len() ==> is_digit(#[trigger] decimal(n)[i]),
        decimal(n).len() > 1 ==> decimal(n)[0] != '0',
        n == 0 <==> decimal(n) == seq!['0'],
        digits_value(decimal(n)) == n,
    decreases n,
{
    if n < 10 {
        assert(decimal(n) == seq![digit_char(n)]);
        assert(seq![digit_char(n)].drop_last() =~= Seq::<char>::empty());
        assert(decimal(n)[0] == digit_char(n));
        assert(digit_value(digit_char(n)) == n);
        assert(digits_value(decimal(n)) == digits_value(decimal(n).drop_last()) * 10 + digit_value(
            decimal(n).last(),
        ));
        assert(digits_value(Seq::<char>::empty()) == 0);
        assert(decimal(n) == seq!['0'] ==> decimal(n)[0] == '0');
    } else {
        let q = n / 10;
        let d = n % 10;
        law_decimal_reads_back(q);
        let s = decimal(n);
        assert(s == decimal(q).push(digit_char(d)));
        assert(s.drop_last() =~= decimal(q));
        assert(s[0] == decimal(q)[0]);
        assert(q > 0);
        assert(forall|i: int| 0 <= i < s.len() ==> is_digit(#[trigger] s[i])) by {
            assert forall|i: int| 0 <= i < s.len() implies is_digit(#[trigger] s[i]) by {
                if i < s.len() - 1 {
                    assert(s[i] == decimal(q)[i]);
                }
            }
        }
        assert(s.len() > 1);
        assert(s.len() != seq!['0'].len());
        if decimal(q).len() == 1 {
            assert(decimal(q) =~= seq![decimal(q)[0]]);
            assert(decimal(q)[0] != '0');
        }
        assert(q * 10 + d == n);
        assert(digit_value(digit_char(d)) == d);
        assert(digits_value(s) == digits_value(s.drop_last()) * 10 + digit_value(s.last()));
    }
}

/// The text of one decimal digit.
fn digit_text(d: u64) -> (s: &'static str)
    requires
        d < 10,
    ensures
        s@ == seq![digit_char(d as nat)],
{
    if d == 0 {
        proof {
            reveal_strlit("0");
        }
        "0"
    } else if d == 1 {
        proof {
            reveal_strlit("1");
        }
        "1"
    } else if d == 2 {
        proof {
            reveal_strlit("2");
        }
        "2"
    } else if d == 3 {
        proof {
            reveal_strlit("3");
        }
        "3"
    } else if d == 4 {
        proof {
            reveal_strlit("4");
        }
        "4"
    } else if d == 5 {
        proof {
            reveal_strlit("5");
        }
        "5"
    } else if d == 6 {
        proof {
            reveal_strlit("6");
        }
        "6"
    } else if d == 7 {
        proof {
            reveal_strlit("7");
        }
        "7"
    } else if d == 8 {
        proof {
            reveal_strlit("8");
        }
        "8"
    } else {
        proof {
            reveal_strlit("9");
        }
        "9"
    }
}

/// Writes `n` in decimal.
pub fn decimal_text(n: u64) -> (s: String)
    ensures
        s@ == decimal(n as nat),
        s@.len() > 0,
        forall|i: int| 0 <= i < s@.len() ==> is_digit(#[trigger] s@[i]),
        s@.len() > 1 ==> s@[0] != '0',
        digits_value(s@) == n,
    decreases n,
{
    proof {
        law_decimal_reads_back(n as nat);
    }
    if n < 10 {
        String::from_str(digit_text(n))
    } else {
        let mut s = decimal_text(n / 10);
        s.append(digit_text(n % 10));
        s
    }
}

/// The debug form that std gives a string: the text in double quotes, with
/// the characters that need it escaped.
pub uninterp spec fn str_debug(s: Seq<char>) -> Seq<char>;

/// Wraps std's `Debug` formatting of `str` (`format!("{:?}", s)`).
#[verifier::external_body]
fn debug_quoted(s: &str) -> (r: String)
    ensures
        r@ == str_debug(s@),
{
    format!("{:?}", s)
}

/// `topic`, a colon, a space and `detail`.
pub open spec fn topic_message(topic: Seq<char>, detail: Seq<char>) -> Seq<char> {
    topic + ": "@ + detail
}

/// Joins a topic and a detail into one message.
pub fn join_topic(topic: &str, detail: &str) -> (s: String)
    ensures
        s@ == topic_message(topic@, detail@),
{
    let mut s = String::from_str(topic);
    s.append(": ");
    s.append(detail);
    s
}

/// The debug form of an optional count: `None`, or `Some(` the number `)`.
pub open spec fn debug_opt_count(v: Option<usize>) -> Seq<char> {
    match v {
        None => "None"@,
        Some(n) => "Some("@ + decimal(n as nat) + ")"@,
    }
}

/// The debug form of an optional text: `None`, or `Some(` its quoted form `)`.
pub open spec fn debug_opt_text(v: Option<Seq<char>>) -> Seq<char> {
    match v {
        None => "None"@,
        Some(t) => "Some("@ + str_debug(t) + ")"@,
    }
}

/// The debug form of an optional pair of offsets: `None`, or `Some((a, b))`.
pub open spec fn debug_opt_pair(v: Option<(u64, u64)>) -> Seq<char> {
    match v {
        None => "None"@,
        Some(p) => "Some(("@ + decimal(p.0 as nat) + ", "@ + decimal(p.1 as nat) + "))"@,
    }
}

/// Writes the debug form of an optional count.
pub fn debug_count(v: Option<usize>) -> (s: String)
    ensures
        s@ == debug_opt_count(v),
{
    match v {
        None => String::from_str("None"),
        Some(n) => {
            let mut s = String::from_str("Some(");
            let d = decimal_text(n as u64);
            s.append(d.as_str());
            s.append(")");
            s
        },
    }
}

/// Writes the debug form of an optional text.
pub fn debug_text(v: &Option<String>) -> (s: String)
    ensures
        s@ == debug_opt_text(match v {
            Some(t) => Some(t@),
            None => None,
        }),
{
    match v {
        None => String::from_str("None"),
        Some(t) => {
            let mut s = String::from_str("Some(");
            let q = debug_quoted(t.as_str());
            s.append(q.as_str());
            s.append(")");
            s
        },
    }
}

/// Writes the debug form of an optional pair of offsets.
pub fn debug_pair(v: Option<(u64, u64)>) -> (s: String)
    ensures
        s@ == debug_opt_pair(v),
{
    match v {
        None => String::from_str("None"),
        Some(p) => {
            let mut s = String::from_str("Some((");
            let a = decimal_text(p.0);
            s.append(a.as_str());
            s.append(", ");
            let b = decimal_text(p.1);
            s.append(b.as_str());
            s.append("))");
            s
        },
    }
}

} // verus!
