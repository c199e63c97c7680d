use vstd::prelude::*;
use vstd::string::StringExecFns;

verus! {

/// The decimal digit for `d`.
pub open spec fn digit_char(d: int) -> char {
    seq!['0', '1', '2', '3', '4', '5', '6', '7', '8', '9'][d]
}

/// The decimal digits of `n`, most significant first, without leading zeros.
pub open spec fn decimal(n: nat) -> Seq<char>
    decreases n,
{
    if n < 10 {
        seq![digit_char(n as int)]
    } else {
        decimal(n / 10).push(digit_char((n % 10) as int))
    }
}

/// `n` written in decimal, with a leading minus sign when it is negative.
pub open spec fn signed_decimal(n: int) -> Seq<char> {
    if n < 0 {
        seq!['-'] + decimal((-n) as nat)
    } else {
        decimal(n as nat)
    }
}

fn digit_text(d: u64) -> (r: &'static str)
    requires
        d < 10,
    ensures
        r@ == seq![digit_char(d as int)],
{
    proof {
        reveal_strlit("0");
        reveal_strlit("1");
        reveal_strlit("2");
        reveal_strlit("3");
        reveal_strlit("4");
        reveal_strlit("5");
        reveal_strlit("6");
        reveal_strlit("7");
        reveal_strlit("8");
        reveal_strlit("9");
    }
    if d == 0 {
        "0"
    } else if d == 1 {
        "1"
    } else if d == 2 {
        "2"
    } else if d == 3 {
        "3"
    } else if d == 4 {
        "4"
    } else if d == 5 {
        "5"
    } else if d == 6 {
        "6"
    } else if d == 7 {
        "7"
    } else if d == 8 {
        "8"
    } else {
        "9"
    }
}

fn append_decimal(s: &mut String, n: u64)
    ensures
        final(s)@ == old(s)@ + decimal(n as nat),
    decreases n,
{
    if n >= 10 {
        append_decimal(s, n / 10);
    }
    s.append(digit_text(n % 10));
    assert(old(s)@ + decimal(n as nat) =~= s@);
}

/// The reason given for tags that two notes share.
pub fn shared_tags_reason(count: usize) -> (r: String)
    ensures
        r@ == "Shared tags: "@ + decimal(count as nat),
{
    proof {
        reveal_strlit("Shared tags: ");
    }
    let mut s = <String as StringExecFns>::from_str("Shared tags: ");
    append_decimal(&mut s, count as u64);
    s
}

/// The reason given for a note viewed `days` days ago.
pub fn recently_viewed_reason(days: i64) -> (r: String)
    ensures
        r@ == "Recently viewed: "@ + signed_decimal(days as int) + " days ago"@,
{
    proof {
        reveal_strlit("Recently viewed: ");
        reveal_strlit("-");
        reveal_strlit(" days ago");
    }
    let mut s = <String as StringExecFns>::from_str("Recently viewed: ");
    if days < 0 {
        s.append("-");
        append_decimal(&mut s, (-(days as i128)) as u64);
    } else {
        append_decimal(&mut s, days as u64);
    }
    s.append(" days ago");
    assert(s@ =~= "Recently viewed: "@ + signed_decimal(days as int) + " days ago"@);
    s
}

} // verus!
