//! IPv4 addresses as four octets, with their dotted-decimal text.

use vstd::prelude::*;
use crate::text::push_char;

verus! {

/// An IPv4 address `a.b.c.d`.
#[derive(Clone, Copy, Debug, PartialEq, Eq, Structural)]
pub struct Ipv4Address(pub u8, pub u8, pub u8, pub u8);

/// The character of a decimal digit `0 <= d < 10`.
pub open spec fn digit_char(d: int) -> char {
    (d + 48) as char
}

/// The decimal text of `n`, without leading zeros.
pub open spec fn decimal(n: nat) -> Seq<char>
    decreases n,
{
    if n < 10 {
        seq![digit_char(n as int)]
    } else {
        decimal(n / 10).push(digit_char((n % 10) as int))
    }
}

/// The dotted-decimal text of an address, e.g. `10.42.0.1`.
pub open spec fn dotted(a: Ipv4Address) -> Seq<char> {
    decimal(a.0 as nat) + seq!['.'] + decimal(a.1 as nat) + seq!['.'] + decimal(a.2 as nat)
        + seq!['.'] + decimal(a.3 as nat)
}

/// Appends the decimal text of `n`.
pub(crate) fn push_decimal(out: &mut String, n: u8)
    ensures
        final(out)@ == old(out)@ + decimal(n as nat),
{
    let ghost start = out@;
    if n >= 100 {
        push_char(out, (48u8 + n / 100) as char);
        assert(decimal((n / 100) as nat) == seq![digit_char((n / 100) as int)]);
    }
    if n >= 10 {
        push_char(out, (48u8 + (n / 10) % 10) as char);
        assert(((n / 10) as nat) / 10 == (n / 100) as nat);
        assert(decimal((n / 10) as nat) == if n >= 100 {
            decimal((n / 100) as nat).push(digit_char(((n / 10) % 10) as int))
        } else {
            seq![digit_char((n / 10) as int)]
        });
    }
    push_char(out, (48u8 + n % 10) as char);
    assert(decimal(n as nat) == if n >= 10 {
        decimal((n / 10) as nat).push(digit_char((n % 10) as int))
    } else {
        seq![digit_char(n as int)]
    });
    assert(out@ =~= start + decimal(n as nat));
}

impl Ipv4Address {
    /// The dotted-decimal text of this address.
    pub fn to_string(&self) -> (r: String)
        ensures
            r@ == dotted(*self),
    {
        let mut s = String::new();
        push_decimal(&mut s, self.0);
        push_char(&mut s, '.');
        push_decimal(&mut s, self.1);
        push_char(&mut s, '.');
        push_decimal(&mut s, self.2);
        push_char(&mut s, '.');
        push_decimal(&mut s, self.3);
        assert(s@ =~= dotted(*self));
        s
    }
}

} // verus!
