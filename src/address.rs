use vstd::prelude::*;
use crate::text::{split_keep, split_on, views};

verus! {

/// An IPv4 address, as its four octets in network order.
#[derive(Clone, Copy, Debug, PartialEq, Eq, Structural, Hash)]
pub struct Address {
    pub a: u8,
    pub b: u8,
    pub c: u8,
    pub d: u8,
}

pub open spec fn is_digit(c: char) -> bool {
    '0' <= c && c <= '9'
}

pub open spec fn digit_value(c: char) -> nat {
    (c as int - '0' as int) as nat
}

pub open spec fn digit_char(n: nat) -> char {
    ('0' as int + n) as char
}

/// The value of a string of decimal digits.
pub open spec fn decimal_value(s: Seq<char>) -> nat
    decreases s.len(),
{
    if s.len() == 0 {
        0
    } else {
        decimal_value(s.drop_last()) * 10 + digit_value(s.last())
    }
}

/// One to three digits, no leading zero but for "0" itself, at most 255.
pub open spec fn is_octet_text(g: Seq<char>) -> bool {
    &&& 1 <= g.len() <= 3
    &&& forall|k: int| 0 <= k < g.len() ==> is_digit(#[trigger] g[k])
    &&& (g.len() == 1 || g[0] != '0')
    &&& decimal_value(g) <= 255
}

/// The address that `s` spells in dotted-decimal form, if it spells one:
/// exactly four groups separated by '.', each a valid octet.
pub open spec fn parse_address_spec(s: Seq<char>) -> Option<Address> {
    let g = split_keep(s, '.');
    if g.len() == 4 && is_octet_text(g[0]) && is_octet_text(g[1]) && is_octet_text(g[2])
        && is_octet_text(g[3]) {
        Some(
            Address {
                a: decimal_value(g[0]) as u8,
                b: decimal_value(g[1]) as u8,
                c: decimal_value(g[2]) as u8,
                d: decimal_value(g[3]) as u8,
            },
        )
    } else {
        None
    }
}

/// Canonical decimal form of an octet.
pub open spec fn octet_text(n: u8) -> Seq<char> {
    if n < 10 {
        seq![digit_char(n as nat)]
    } else if n < 100 {
        seq![digit_char((n / 10) as nat), digit_char((n % 10) as nat)]
    } else {
        seq![
            digit_char((n / 100) as nat),
            digit_char(((n / 10) % 10) as nat),
            digit_char((n % 10) as nat),
        ]
    }
}

/// Canonical dotted-decimal form of an address.
pub open spec fn dotted(x: Address) -> Seq<char> {
    octet_text(x.a) + seq!['.'] + octet_text(x.b) + seq!['.'] + octet_text(x.c) + seq!['.']
        + octet_text(x.d)
}

fn parse_octet(g: &Vec<char>) -> (r: Option<u8>)
    ensures
        r == (if is_octet_text(g@) {
            Some(decimal_value(g@) as u8)
        } else {
            None::<u8>
        }),
{
    let n = g.len();
    if n < 1 || n > 3 {
        return None;
    }
    if n > 1 && g[0] == '0' {
        return None;
    }
    let mut v: u32 = 0;
    let mut i: usize = 0;
    while i < n
        invariant
            n == g@.len(),
            1 <= n <= 3,
            i <= n,
            forall|k: int| 0 <= k < i ==> is_digit(#[trigger] g@[k]),
            v == decimal_value(g@.take(i as int)),
            v < 1000,
            i < 3 ==> v < 100,
            i < 2 ==> v < 10,
            i == 0 ==> v == 0,
        decreases n - i,
    {
        let c = g[i];
        if !('0' <= c && c <= '9') {
            return None;
        }
        proof {
            assert(g@.take(i + 1).drop_last() =~= g@.take(i as int));
        }
        v = v * 10 + (c as u32 - '0' as u32);
        i = i + 1;
    }
    assert(g@.take(n as int) =~= g@);
    if v > 255 {
        None
    } else {
        Some(v as u8)
    }
}

/// Parses dotted-decimal IPv4 text.
pub fn parse_address(s: &[char]) -> (r: Option<Address>)
    ensures
        r == parse_address_spec(s@),
{
    let g = split_on(s, '.');
    proof {
        assert(views(g@).len() == g@.len());
    }
    if g.len() != 4 {
        return None;
    }
    proof {
        assert(g@[0]@ == split_keep(s@, '.')[0]);
        assert(g@[1]@ == split_keep(s@, '.')[1]);
        assert(g@[2]@ == split_keep(s@, '.')[2]);
        assert(g@[3]@ == split_keep(s@, '.')[3]);
    }
    let a = parse_octet(&g[0]);
    let b = parse_octet(&g[1]);
    let c = parse_octet(&g[2]);
    let d = parse_octet(&g[3]);
    match (a, b, c, d) {
        (Some(a), Some(b), Some(c), Some(d)) => Some(Address { a, b, c, d }),
        _ => None,
    }
}

fn digit_str(n: u8) -> (r: &'static str)
    requires
        n < 10,
    ensures
        r@ == seq![digit_char(n as nat)],
{
    proof {
        reveal_strlit("0");
        reveal_strlit("1");
        reveal_strlit("2");
        reveal_strlit("3");
        reveal_strlit("4");
        reveal_strlit("5");
        reveal_strlit("6");
        reveal_strlit("7");
        reveal_strlit("8");
        reveal_strlit("9");
    }
    match n {
        0 => "0",
        1 => "1",
        2 => "2",
        3 => "3",
        4 => "4",
        5 => "5",
        6 => "6",
        7 => "7",
        8 => "8",
        _ => "9",
    }
}

fn push_octet(out: &mut String, n: u8)
    ensures
        final(out)@ == old(out)@ + octet_text(n),
{
    if n < 10 {
        out.append(digit_str(n));
    } else if n < 100 {
        out.append(digit_str(n / 10));
        out.append(digit_str(n % 10));
    } else {
        out.append(digit_str(n / 100));
        out.append(digit_str((n / 10) % 10));
        out.append(digit_str(n % 10));
    }
    assert(final(out)@ =~= old(out)@ + octet_text(n));
}

impl Address {
    /// The canonical dotted-decimal form, such as "192.168.1.1".
    pub fn to_text(&self) -> (r: String)
        ensures
            r@ == dotted(*self),
    {
        let mut r = String::new();
        proof {
            reveal_strlit(".");
        }
        push_octet(&mut r, self.a);
        r.append(".");
        push_octet(&mut r, self.b);
        r.append(".");
        push_octet(&mut r, self.c);
        r.append(".");
        push_octet(&mut r, self.d);
        assert(r@ =~= dotted(*self));
        r
    }
}

} // verus!
