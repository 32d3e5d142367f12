//! IP addresses, as the text protocols write them.

use crate::text::{
    all_digits, copy_of, decimal, parse_number, parse_unsigned, push_decimal, split, split_at_each,
    views, DOT,
};
use vstd::prelude::*;

verus! {

/// An IP address: the four numbers of version 4, or the text of version 6.
#[derive(Debug, Clone, PartialEq, Eq)]
pub enum IpAddress {
    V4(u8, u8, u8, u8),
    V6(Vec<u8>),
}

pub enum IpAddressView {
    V4(u8, u8, u8, u8),
    V6(Seq<u8>),
}

impl View for IpAddress {
    type V = IpAddressView;

    open spec fn view(&self) -> IpAddressView {
        match *self {
            IpAddress::V4(a, b, c, d) => IpAddressView::V4(a, b, c, d),
            IpAddress::V6(text) => IpAddressView::V6(text@),
        }
    }
}

/// Reading of one number of a version 4 address: one to three digits that spell at most 255,
/// with no zero in front of another digit.
pub open spec fn octet_parsed(s: Seq<u8>) -> Option<u8> {
    if 1 <= s.len() <= 3 && all_digits(s) && !(s.len() > 1 && s[0] == 48) {
        match parse_unsigned(s, 255) {
            Some(value) => Some(value as u8),
            None => None,
        }
    } else {
        None
    }
}

/// Whether `b` may stand in the text of a version 6 address: a hexadecimal digit, a colon
/// or a dot.
pub open spec fn is_v6_byte(b: u8) -> bool {
    (48 <= b <= 58) || (65 <= b <= 70) || (97 <= b <= 102) || b == DOT
}

/// Whether `s` has the shape of a version 6 address: hexadecimal digits, colons and dots,
/// with a colon among them.
pub open spec fn is_v6_text(s: Seq<u8>) -> bool {
    &&& exists|i: int| 0 <= i < s.len() && #[trigger] s[i] == 58
    &&& forall|i: int| 0 <= i < s.len() ==> is_v6_byte(#[trigger] s[i])
}

impl IpAddressView {
    pub open spec fn text(self) -> Seq<u8> {
        match self {
            IpAddressView::V4(a, b, c, d) => decimal(a as nat) + seq![DOT] + decimal(b as nat)
                + seq![DOT] + decimal(c as nat) + seq![DOT] + decimal(d as nat),
            IpAddressView::V6(text) => text,
        }
    }

    /// Reading of an address: four numbers with dots between them, or text of the shape of a
    /// version 6 address.
    pub open spec fn of_text(s: Seq<u8>) -> Option<IpAddressView> {
        let parts = split(s, DOT);
        if parts.len() == 4 && octet_parsed(parts[0]) is Some && octet_parsed(parts[1]) is Some
            && octet_parsed(parts[2]) is Some && octet_parsed(parts[3]) is Some {
            Some(
                IpAddressView::V4(
                    octet_parsed(parts[0])->Some_0,
                    octet_parsed(parts[1])->Some_0,
                    octet_parsed(parts[2])->Some_0,
                    octet_parsed(parts[3])->Some_0,
                ),
            )
        } else if is_v6_text(s) {
            Some(IpAddressView::V6(s))
        } else {
            None
        }
    }
}

fn parse_octet(s: &[u8]) -> (r: Option<u8>)
    ensures
        r == octet_parsed(s@),
{
    if s.len() < 1 || s.len() > 3 {
        return None;
    }
    let mut i: usize = 0;
    while i < s.len()
        invariant
            0 <= i <= s@.len(),
            forall|j: int| 0 <= j < i ==> crate::text::is_digit(#[trigger] s@[j]),
        decreases s@.len() - i,
    {
        if s[i] < 48 || s[i] > 57 {
            assert(!crate::text::is_digit(s@[i as int]));
            return None;
        }
        i += 1;
    }
    if s.len() > 1 && s[0] == 48 {
        return None;
    }
    match parse_number(s, 255) {
        Some(value) => Some(value as u8),
        None => None,
    }
}

fn has_v6_shape(s: &[u8]) -> (r: bool)
    ensures
        r == is_v6_text(s@),
{
    let mut colon = false;
    let mut i: usize = 0;
    while i < s.len()
        invariant
            0 <= i <= s@.len(),
            forall|j: int| 0 <= j < i ==> is_v6_byte(#[trigger] s@[j]),
            colon == (exists|j: int| 0 <= j < i && #[trigger] s@[j] == 58),
        decreases s@.len() - i,
    {
        let b = s[i];
        if !((48 <= b && b <= 58) || (65 <= b && b <= 70) || (97 <= b && b <= 102) || b == DOT) {
            assert(!is_v6_byte(s@[i as int]));
            return false;
        }
        if b == 58 {
            colon = true;
        }
        i += 1;
    }
    colon
}

impl IpAddress {
    pub fn to_bytes(&self) -> (r: Vec<u8>)
        ensures
            r@ == self@.text(),
    {
        match self {
            IpAddress::V4(a, b, c, d) => {
                let mut out: Vec<u8> = Vec::new();
                push_decimal(&mut out, *a as u64);
                out.push(DOT);
                push_decimal(&mut out, *b as u64);
                out.push(DOT);
                push_decimal(&mut out, *c as u64);
                out.push(DOT);
                push_decimal(&mut out, *d as u64);
                assert(out@ =~= self@.text());
                out
            },
            IpAddress::V6(text) => copy_of(text.as_slice()),
        }
    }

    pub fn from_bytes(s: &[u8]) -> (r: Option<IpAddress>)
        ensures
            match IpAddressView::of_text(s@) {
                Some(address) => r matches Some(a) && a@ == address,
                None => r is None,
            },
    {
        let parts = split_at_each(s, DOT);
        if parts.len() == 4 {
            assert(views(parts@)[0] == parts@[0]@);
            assert(views(parts@)[1] == parts@[1]@);
            assert(views(parts@)[2] == parts@[2]@);
            assert(views(parts@)[3] == parts@[3]@);
            let a = parse_octet(parts[0].as_slice());
            let b = parse_octet(parts[1].as_slice());
            let c = parse_octet(parts[2].as_slice());
            let d = parse_octet(parts[3].as_slice());
            if a.is_some() && b.is_some() && c.is_some() && d.is_some() {
                return Some(IpAddress::V4(a.unwrap(), b.unwrap(), c.unwrap(), d.unwrap()));
            }
        }
        if has_v6_shape(s) {
            Some(IpAddress::V6(copy_of(s)))
        } else {
            None
        }
    }
}


} // verus!
