use vstd::prelude::*;

verus! {

/// The packed code of the feed's base currency, the euro:
/// `'E' * 65536 + 'U' * 256 + 'R'`.
pub const EUR_CODE: u32 = 4543826;

/// A currency code: three ASCII uppercase letters packed into one integer,
/// most significant letter first. Numeric order on the packed value is
/// exactly lexicographic order on the three letters, so a sorted catalog
/// of packed codes is sorted the way the original code lists read.
#[derive(Clone, Copy, Debug, PartialEq, Eq, Structural)]
pub struct Currency {
    pub code: u32,
}

/// True when `b` is the byte of an ASCII uppercase letter.
pub open spec fn spec_is_upper(b: u8) -> bool {
    65 <= b <= 90
}

/// The packed form of three letter bytes.
pub open spec fn spec_pack(a: u8, b: u8, c: u8) -> u32 {
    (a * 65536 + b * 256 + c) as u32
}

impl Currency {
    /// A currency is valid when its packed value decodes to three
    /// uppercase letters.
    pub open spec fn wf(self) -> bool {
        exists|a: u8, b: u8, c: u8|
            spec_is_upper(a) && spec_is_upper(b) && spec_is_upper(c) && self.code == spec_pack(
                a,
                b,
                c,
            )
    }

    /// The canonical code of the euro.
    pub fn eur() -> (r: Currency)
        ensures
            r.code == EUR_CODE,
            r.wf(),
    {
        proof {
            assert(spec_is_upper(69) && spec_is_upper(85) && spec_is_upper(82) && EUR_CODE
                == spec_pack(69, 85, 82));
        }
        Currency { code: EUR_CODE }
    }

    /// Build a currency from three letter bytes.
    pub fn from_bytes(a: u8, b: u8, c: u8) -> (r: Option<Currency>)
        ensures
            match r {
                Some(cur) => {
                    &&& spec_is_upper(a) && spec_is_upper(b) && spec_is_upper(c)
                    &&& cur.code == spec_pack(a, b, c)
                    &&& cur.wf()
                },
                None => !(spec_is_upper(a) && spec_is_upper(b) && spec_is_upper(c)),
            },
    {
        if 65 <= a && a <= 90 && 65 <= b && b <= 90 && 65 <= c && c <= 90 {
            Some(Currency { code: (a as u32) * 65536 + (b as u32) * 256 + (c as u32) })
        } else {
            None
        }
    }

    /// Parse a currency code from a three-letter uppercase string.
    pub fn from_str(s: &str) -> (r: Option<Currency>)
        ensures
            match r {
                Some(cur) => {
                    &&& s@.len() == 3
                    &&& cur.wf()
                    &&& cur.code == spec_pack_chars(s@[0], s@[1], s@[2])
                },
                None => !(s@.len() == 3 && spec_is_upper_char(s@[0]) && spec_is_upper_char(s@[1])
                    && spec_is_upper_char(s@[2])),
            },
    {
        if s.unicode_len() != 3 {
            return None;
        }
        let c0 = s.get_char(0);
        let c1 = s.get_char(1);
        let c2 = s.get_char(2);
        let u0 = c0 as u32;
        let u1 = c1 as u32;
        let u2 = c2 as u32;
        if 65 <= u0 && u0 <= 90 && 65 <= u1 && u1 <= 90 && 65 <= u2 && u2 <= 90 {
            let cur = Currency { code: u0 * 65536 + u1 * 256 + u2 };
            proof {
                assert(spec_is_upper(u0 as u8) && spec_is_upper(u1 as u8) && spec_is_upper(
                    u2 as u8,
                ) && cur.code == spec_pack(u0 as u8, u1 as u8, u2 as u8));
            }
            Some(cur)
        } else {
            None
        }
    }

    /// The three letter bytes of this code, most significant first.
    pub fn letters(&self) -> (r: (u8, u8, u8))
        requires
            self.wf(),
        ensures
            spec_is_upper(r.0) && spec_is_upper(r.1) && spec_is_upper(r.2),
            self.code == spec_pack(r.0, r.1, r.2),
    {
        let a: u32 = self.code / 65536;
        let b: u32 = (self.code / 256) % 256;
        let c: u32 = self.code % 256;
        proof {
            let (x, y, z) = choose|x: u8, y: u8, z: u8|
                spec_is_upper(x) && spec_is_upper(y) && spec_is_upper(z) && self.code == spec_pack(
                    x,
                    y,
                    z,
                );
            assert(a == x && b == y && c == z) by (nonlinear_arith)
                requires
                    spec_is_upper(x) && spec_is_upper(y) && spec_is_upper(z),
                    self.code == spec_pack(x, y, z),
                    a == self.code / 65536,
                    b == (self.code / 256) % 256,
                    c == self.code % 256,
            ;
        }
        (a as u8, b as u8, c as u8)
    }
}

/// True when a character is an ASCII uppercase letter.
pub open spec fn spec_is_upper_char(c: char) -> bool {
    65 <= c as u32 <= 90
}

/// The packed form of three uppercase characters.
pub open spec fn spec_pack_chars(a: char, b: char, c: char) -> u32 {
    ((a as u32) * 65536 + (b as u32) * 256 + (c as u32)) as u32
}

} // verus!
