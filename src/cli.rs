//! The server's startup settings.
use vstd::prelude::*;

use crate::bindings::push_char;
use vstd::string::StringExecFns;

verus! {

/// Where the server listens.
pub struct Args {
    /// The address to bind to.
    pub ip_address: String,
    /// The port to bind to.
    pub port: i32,
}

pub open spec fn digit(d: nat) -> char {
    if d == 0 {
        '0'
    } else if d == 1 {
        '1'
    } else if d == 2 {
        '2'
    } else if d == 3 {
        '3'
    } else if d == 4 {
        '4'
    } else if d == 5 {
        '5'
    } else if d == 6 {
        '6'
    } else if d == 7 {
        '7'
    } else if d == 8 {
        '8'
    } else {
        '9'
    }
}

/// The decimal digits of `n`, most significant first, with no leading zero.
pub open spec fn digits(n: nat) -> Seq<char>
    decreases n,
{
    if n < 10 {
        seq![digit(n)]
    } else {
        digits(n / 10).push(digit(n % 10))
    }
}

/// `n` written in decimal, with a leading minus sign when negative.
pub open spec fn decimal(n: int) -> Seq<char> {
    if n < 0 {
        seq!['-'] + digits((-n) as nat)
    } else {
        digits(n as nat)
    }
}

fn digit_char(d: u64) -> (r: char)
    requires
        d < 10,
    ensures
        r == digit(d as nat),
{
    match d {
        0 => '0',
        1 => '1',
        2 => '2',
        3 => '3',
        4 => '4',
        5 => '5',
        6 => '6',
        7 => '7',
        8 => '8',
        _ => '9',
    }
}

/// `n` written in decimal.
pub fn decimal_of(n: i32) -> (r: String)
    ensures
        r@ == decimal(n as int),
{
    let mut m: u64 = if n < 0 {
        (-(n as i64)) as u64
    } else {
        n as u64
    };
    let ghost m0 = m as nat;
    let mut low_first: Vec<char> = Vec::new();
    while m >= 10
        invariant
            digits(m0) == digits(m as nat) + low_first@.reverse(),
        decreases m,
    {
        let d = digit_char(m % 10);
        proof {
            assert(low_first@.push(d).reverse() =~= seq![d] + low_first@.reverse());
            assert(digits(m as nat) == digits((m / 10) as nat).push(d));
            assert(digits((m / 10) as nat).push(d) + low_first@.reverse() =~= digits(
                (m / 10) as nat,
            ) + (seq![d] + low_first@.reverse()));
        }
        low_first.push(d);
        m = m / 10;
    }
    let d = digit_char(m);
    proof {
        assert(low_first@.push(d).reverse() =~= seq![d] + low_first@.reverse());
    }
    low_first.push(d);
    let mut s = String::new();
    if n < 0 {
        s.append("-");
        proof {
            reveal_strlit("-");
        }
    }
    let ghost sign = s@;
    let mut k: usize = low_first.len();
    while k > 0
        invariant
            k <= low_first.len(),
            s@ == sign + low_first@.subrange(k as int, low_first.len() as int).reverse(),
        decreases k,
    {
        k = k - 1;
        proof {
            assert(low_first@.subrange(k as int, low_first.len() as int).reverse() =~= low_first@.subrange(
                k + 1,
                low_first.len() as int,
            ).reverse().push(low_first@[k as int]));
        }
        push_char(&mut s, low_first[k]);
    }
    proof {
        assert(low_first@.subrange(0, low_first.len() as int) =~= low_first@);
        assert(s@ =~= decimal(n as int));
    }
    s
}

impl Args {
    /// The `address:port` text that the server binds to.
    pub fn bind_address(&self) -> (r: String)
        ensures
            r@ == self.ip_address@ + seq![':'] + decimal(self.port as int),
    {
        let mut s = String::new();
        s.append(self.ip_address.as_str());
        s.append(":");
        let port = decimal_of(self.port);
        s.append(port.as_str());
        proof {
            reveal_strlit(":");
            assert(s@ =~= self.ip_address@ + seq![':'] + decimal(self.port as int));
        }
        s
    }
}

impl Default for Args {
    /// Every interface, port 80.
    fn default() -> (r: Args)
        ensures
            r.ip_address@ == seq!['0', '.', '0', '.', '0', '.', '0'],
            r.port == 80,
    {
        let ip_address = String::from_str("0.0.0.0");
        proof {
            reveal_strlit("0.0.0.0");
        }
        Args { ip_address, port: 80 }
    }
}

} // verus!
