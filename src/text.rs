//! Text that the coordinator writes into replies: decimal numbers and
//! comma-separated lists.

use vstd::prelude::*;
use vstd::string::*;

verus! {

pub open spec fn digit_char(d: nat) -> char {
    if d == 0 {
        '0'
    } else if d == 1 {
        '1'
    } else if d == 2 {
        '2'
    } else if d == 3 {
        '3'
    } else if d == 4 {
        '4'
    } else if d == 5 {
        '5'
    } else if d == 6 {
        '6'
    } else if d == 7 {
        '7'
    } else if d == 8 {
        '8'
    } else {
        '9'
    }
}

/// The decimal digits of `n`, most significant first, without leading zeros.
pub open spec fn dec(n: nat) -> Seq<char>
    decreases n,
{
    if n < 10 {
        seq![digit_char(n)]
    } else {
        dec(n / 10) + seq![digit_char(n % 10)]
    }
}

fn digit_str(d: u32) -> (r: &'static str)
    requires
        d < 10,
    ensures
        r@ == seq![digit_char(d as nat)],
{
    proof {
        reveal_strlit("0");
        reveal_strlit("1");
        reveal_strlit("2");
        reveal_strlit("3");
        reveal_strlit("4");
        reveal_strlit("5");
        reveal_strlit("6");
        reveal_strlit("7");
        reveal_strlit("8");
        reveal_strlit("9");
    }
    if d == 0 {
        "0"
    } else if d == 1 {
        "1"
    } else if d == 2 {
        "2"
    } else if d == 3 {
        "3"
    } else if d == 4 {
        "4"
    } else if d == 5 {
        "5"
    } else if d == 6 {
        "6"
    } else if d == 7 {
        "7"
    } else if d == 8 {
        "8"
    } else {
        "9"
    }
}

/// Appends the decimal digits of `n` to `out`.
pub fn push_decimal(out: &mut String, n: u32)
    ensures
        final(out)@ == old(out)@ + dec(n as nat),
    decreases n,
{
    if n < 10 {
        out.append(digit_str(n));
    } else {
        push_decimal(out, n / 10);
        out.append(digit_str(n % 10));
        assert(final(out)@ =~= old(out)@ + dec(n as nat));
    }
}

/// `user_` followed by the decimal digits of `id`.
pub open spec fn default_nick(id: u32) -> Seq<char> {
    seq!['u', 's', 'e', 'r', '_'] + dec(id as nat)
}

/// The nickname a client holds from the moment it connects.
pub fn make_default_nick(id: u32) -> (r: String)
    ensures
        r@ == default_nick(id),
{
    proof {
        reveal_strlit("user_");
    }
    let mut s = String::from_str("user_");
    push_decimal(&mut s, id);
    s
}

/// The items of `items`, separated by commas.
pub open spec fn comma_join(items: Seq<Seq<char>>) -> Seq<char>
    decreases items.len(),
{
    if items.len() == 0 {
        Seq::empty()
    } else if items.len() == 1 {
        items[0]
    } else {
        comma_join(items.drop_last()) + seq![','] + items.last()
    }
}

/// Appends `item` to the comma-separated list in `out`: after a comma unless
/// `first` says that it is the list's first item.
pub fn push_item(out: &mut String, item: &str, first: bool)
    ensures
        first ==> final(out)@ == old(out)@ + item@,
        !first ==> final(out)@ == old(out)@ + seq![','] + item@,
{
    proof {
        reveal_strlit(",");
    }
    if !first {
        out.append(",");
    }
    out.append(item);
}

} // verus!
