//! Page identifiers.
//!
//! A page is identified by a UTC timestamp with second precision, written
//! in compact ISO-8601 basic form, e.g. `20251224T000000Z`. The identifier
//! stores the fourteen decimal digits as a single number, so ordering
//! identifiers numerically agrees with ordering their text forms.

use vstd::prelude::*;

verus! {

use vstd::arithmetic::div_mod::{
    lemma_div_denominator,
    lemma_div_pos_is_pos,
    lemma_fundamental_div_mod,
    lemma_fundamental_div_mod_converse,
    lemma_mod_division_less_than_divisor,
    lemma_mod_multiples_vanish,
    lemma_small_mod,
};

/// Upper bound (exclusive) on the packed digits: fourteen decimal digits.
pub const PAGE_ID_LIMIT: u64 = 100_000_000_000_000;

/// A timestamp-derived page identifier.
///
/// The packed value reads `YYYYMMDDHHMMSS`; its text form inserts `T`
/// after the date digits and appends `Z`. Every identifier round-trips
/// exactly through its text form (`lemma_text_round_trip`).
#[derive(Clone, Copy, Debug, PartialEq, Eq, Structural)]
pub struct PageId {
    stamp: u64,
}

/// The character for one decimal digit.
pub open spec fn digit_char(d: int) -> char {
    if d == 0 {
        '0'
    } else if d == 1 {
        '1'
    } else if d == 2 {
        '2'
    } else if d == 3 {
        '3'
    } else if d == 4 {
        '4'
    } else if d == 5 {
        '5'
    } else if d == 6 {
        '6'
    } else if d == 7 {
        '7'
    } else if d == 8 {
        '8'
    } else {
        '9'
    }
}

/// Whether a character is a decimal digit.
pub open spec fn is_digit(c: char) -> bool {
    48 <= c as u32 <= 57
}

/// The numeric value of a decimal digit character.
pub open spec fn digit_val(c: char) -> int {
    c as u32 - 48
}

/// Whether a character sequence is the text form of some page identifier:
/// eight date digits, `T`, six time digits, `Z`.
pub open spec fn is_id_text(s: Seq<char>) -> bool {
    &&& s.len() == 16
    &&& s[8] == 'T'
    &&& s[15] == 'Z'
    &&& forall|i: int| 0 <= i < 16 && i != 8 && i != 15 ==> is_digit(#[trigger] s[i])
}

/// The number packed from the fourteen digits of an identifier's text form.
pub open spec fn id_value_of(s: Seq<char>) -> int {
    digit_val(s[0]) * 10_000_000_000_000 + digit_val(s[1]) * 1_000_000_000_000 + digit_val(s[2])
        * 100_000_000_000 + digit_val(s[3]) * 10_000_000_000 + digit_val(s[4]) * 1_000_000_000
        + digit_val(s[5]) * 100_000_000 + digit_val(s[6]) * 10_000_000 + digit_val(s[7]) * 1_000_000
        + digit_val(s[9]) * 100_000 + digit_val(s[10]) * 10_000 + digit_val(s[11]) * 1_000
        + digit_val(s[12]) * 100 + digit_val(s[13]) * 10 + digit_val(s[14])
}

impl PageId {
    /// The packed digits; two identifiers are equal exactly when these agree.
    pub closed spec fn raw(self) -> u64 {
        self.stamp
    }

    /// The packed digits fit in fourteen decimal places.
    pub open spec fn wf(self) -> bool {
        self.raw() < PAGE_ID_LIMIT
    }

    /// The canonical sixteen-character text form.
    pub closed spec fn text(self) -> Seq<char> {
        let v = self.stamp as int;
        seq![
            digit_char(v / 10_000_000_000_000 % 10),
            digit_char(v / 1_000_000_000_000 % 10),
            digit_char(v / 100_000_000_000 % 10),
            digit_char(v / 10_000_000_000 % 10),
            digit_char(v / 1_000_000_000 % 10),
            digit_char(v / 100_000_000 % 10),
            digit_char(v / 10_000_000 % 10),
            digit_char(v / 1_000_000 % 10),
            'T',
            digit_char(v / 100_000 % 10),
            digit_char(v / 10_000 % 10),
            digit_char(v / 1_000 % 10),
            digit_char(v / 100 % 10),
            digit_char(v / 10 % 10),
            digit_char(v % 10),
            'Z',
        ]
    }

    /// The reserved root page identifier, `00000000T000000Z`.
    pub fn root() -> (r: PageId)
        ensures
            r.wf(),
            r.raw() == 0,
    {
        PageId { stamp: 0 }
    }

    /// Parse the text form of an identifier. Returns `None` exactly on
    /// strings that are not the text form of any identifier.
    #[verifier::rlimit(100)]
    pub fn parse(s: &str) -> (r: Option<PageId>)
        ensures
            r is Some <==> is_id_text(s@),
            r is Some ==> r->Some_0.wf() && r->Some_0.raw() == id_value_of(s@)
                && r->Some_0.text() == s@,
    {
        if s.unicode_len() != 16 {
            return None;
        }
        if s.get_char(8) != 'T' || s.get_char(15) != 'Z' {
            return None;
        }
        let d0 = match char_digit(s.get_char(0)) {
            Some(d) => d,
            None => { return None; },
        };
        let d1 = match char_digit(s.get_char(1)) {
            Some(d) => d,
            None => { return None; },
        };
        let d2 = match char_digit(s.get_char(2)) {
            Some(d) => d,
            None => { return None; },
        };
        let d3 = match char_digit(s.get_char(3)) {
            Some(d) => d,
            None => { return None; },
        };
        let d4 = match char_digit(s.get_char(4)) {
            Some(d) => d,
            None => { return None; },
        };
        let d5 = match char_digit(s.get_char(5)) {
            Some(d) => d,
            None => { return None; },
        };
        let d6 = match char_digit(s.get_char(6)) {
            Some(d) => d,
            None => { return None; },
        };
        let d7 = match char_digit(s.get_char(7)) {
            Some(d) => d,
            None => { return None; },
        };
        let d9 = match char_digit(s.get_char(9)) {
            Some(d) => d,
            None => { return None; },
        };
        let d10 = match char_digit(s.get_char(10)) {
            Some(d) => d,
            None => { return None; },
        };
        let d11 = match char_digit(s.get_char(11)) {
            Some(d) => d,
            None => { return None; },
        };
        let d12 = match char_digit(s.get_char(12)) {
            Some(d) => d,
            None => { return None; },
        };
        let d13 = match char_digit(s.get_char(13)) {
            Some(d) => d,
            None => { return None; },
        };
        let d14 = match char_digit(s.get_char(14)) {
            Some(d) => d,
            None => { return None; },
        };
        let stamp: u64 = d0 * 10_000_000_000_000 + d1 * 1_000_000_000_000 + d2 * 100_000_000_000
            + d3 * 10_000_000_000 + d4 * 1_000_000_000 + d5 * 100_000_000 + d6 * 10_000_000 + d7
            * 1_000_000 + d9 * 100_000 + d10 * 10_000 + d11 * 1_000 + d12 * 100 + d13 * 10 + d14;
        let r = PageId { stamp };
        proof {
            assert(is_id_text(s@)) by {
                assert forall|i: int| 0 <= i < 16 && i != 8 && i != 15 implies is_digit(
                    #[trigger] s@[i],
                ) by {
                    assert(is_digit(s@[0]));
                    assert(is_digit(s@[1]));
                    assert(is_digit(s@[2]));
                    assert(is_digit(s@[3]));
                    assert(is_digit(s@[4]));
                    assert(is_digit(s@[5]));
                    assert(is_digit(s@[6]));
                    assert(is_digit(s@[7]));
                    assert(is_digit(s@[9]));
                    assert(is_digit(s@[10]));
                    assert(is_digit(s@[11]));
                    assert(is_digit(s@[12]));
                    assert(is_digit(s@[13]));
                    assert(is_digit(s@[14]));
                }
            }
            lemma_digits_pack(
                d0 as int,
                d1 as int,
                d2 as int,
                d3 as int,
                d4 as int,
                d5 as int,
                d6 as int,
                d7 as int,
                d9 as int,
                d10 as int,
                d11 as int,
                d12 as int,
                d13 as int,
                d14 as int,
            );
            assert(r.text() =~= s@);
        }
        Some(r)
    }

    /// Print the canonical text form.
    pub fn to_text(&self) -> (r: String)
        requires
            self.wf(),
        ensures
            r@ == self.text(),
    {
        let mut r = String::new();
        r.append(digit_str(self.stamp / 10_000_000_000_000 % 10));
        r.append(digit_str(self.stamp / 1_000_000_000_000 % 10));
        r.append(digit_str(self.stamp / 100_000_000_000 % 10));
        r.append(digit_str(self.stamp / 10_000_000_000 % 10));
        r.append(digit_str(self.stamp / 1_000_000_000 % 10));
        r.append(digit_str(self.stamp / 100_000_000 % 10));
        r.append(digit_str(self.stamp / 10_000_000 % 10));
        r.append(digit_str(self.stamp / 1_000_000 % 10));
        proof {
            reveal_strlit("T");
            reveal_strlit("Z");
        }
        r.append("T");
        r.append(digit_str(self.stamp / 100_000 % 10));
        r.append(digit_str(self.stamp / 10_000 % 10));
        r.append(digit_str(self.stamp / 1_000 % 10));
        r.append(digit_str(self.stamp / 100 % 10));
        r.append(digit_str(self.stamp / 10 % 10));
        r.append(digit_str(self.stamp % 10));
        r.append("Z");
        proof {
            assert(r@ =~= self.text());
        }
        r
    }

    /// Whether this identifier orders strictly before another; identifiers
    /// are totally ordered by their packed digits.
    pub fn lt(&self, other: &PageId) -> (r: bool)
        ensures
            r == (self.raw() < other.raw()),
    {
        self.stamp < other.stamp
    }
}

/// The text form has the shape `parse` accepts and packs back to the same
/// number, so every identifier round-trips exactly through its text form.
pub proof fn lemma_text_round_trip(p: PageId)
    requires
        p.wf(),
    ensures
        is_id_text(p.text()),
        id_value_of(p.text()) == p.raw(),
{
    let v = p.raw() as int;
    assert forall|i: int| 0 <= i < 16 && i != 8 && i != 15 implies is_digit(
        #[trigger] p.text()[i],
    ) by {
        lemma_digit_char_val(v / 10_000_000_000_000 % 10);
        lemma_digit_char_val(v / 1_000_000_000_000 % 10);
        lemma_digit_char_val(v / 100_000_000_000 % 10);
        lemma_digit_char_val(v / 10_000_000_000 % 10);
        lemma_digit_char_val(v / 1_000_000_000 % 10);
        lemma_digit_char_val(v / 100_000_000 % 10);
        lemma_digit_char_val(v / 10_000_000 % 10);
        lemma_digit_char_val(v / 1_000_000 % 10);
        lemma_digit_char_val(v / 100_000 % 10);
        lemma_digit_char_val(v / 10_000 % 10);
        lemma_digit_char_val(v / 1_000 % 10);
        lemma_digit_char_val(v / 100 % 10);
        lemma_digit_char_val(v / 10 % 10);
        lemma_digit_char_val(v % 10);
    }
    lemma_digit_char_val(v / 10_000_000_000_000 % 10);
    lemma_digit_char_val(v / 1_000_000_000_000 % 10);
    lemma_digit_char_val(v / 100_000_000_000 % 10);
    lemma_digit_char_val(v / 10_000_000_000 % 10);
    lemma_digit_char_val(v / 1_000_000_000 % 10);
    lemma_digit_char_val(v / 100_000_000 % 10);
    lemma_digit_char_val(v / 10_000_000 % 10);
    lemma_digit_char_val(v / 1_000_000 % 10);
    lemma_digit_char_val(v / 100_000 % 10);
    lemma_digit_char_val(v / 10_000 % 10);
    lemma_digit_char_val(v / 1_000 % 10);
    lemma_digit_char_val(v / 100 % 10);
    lemma_digit_char_val(v / 10 % 10);
    lemma_digit_char_val(v % 10);
    lemma_digits_unpack(v);
}

/// The packed digits determine the identifier.
pub proof fn lemma_raw_eq(a: PageId, b: PageId)
    requires
        a.raw() == b.raw(),
    ensures
        a == b,
{
}

/// Two well-formed identifiers with the same text form are the same
/// identifier: the text form determines the packed digits.
pub proof fn lemma_text_injective(a: PageId, b: PageId)
    requires
        a.wf(),
        b.wf(),
        a.text() == b.text(),
    ensures
        a == b,
{
    lemma_text_round_trip(a);
    lemma_text_round_trip(b);
}

/// `digit_char` maps a digit to a digit character and `digit_val` maps it
/// back.
proof fn lemma_digit_char_val(d: int)
    requires
        0 <= d < 10,
    ensures
        is_digit(digit_char(d)),
        digit_val(digit_char(d)) == d,
{
}

/// Summing fourteen digits against their place values packs to a number
/// whose place-wise digits are those digits again.
proof fn lemma_digits_pack(
    d0: int,
    d1: int,
    d2: int,
    d3: int,
    d4: int,
    d5: int,
    d6: int,
    d7: int,
    d9: int,
    d10: int,
    d11: int,
    d12: int,
    d13: int,
    d14: int,
)
    requires
        0 <= d0 < 10,
        0 <= d1 < 10,
        0 <= d2 < 10,
        0 <= d3 < 10,
        0 <= d4 < 10,
        0 <= d5 < 10,
        0 <= d6 < 10,
        0 <= d7 < 10,
        0 <= d9 < 10,
        0 <= d10 < 10,
        0 <= d11 < 10,
        0 <= d12 < 10,
        0 <= d13 < 10,
        0 <= d14 < 10,
    ensures
        ({
            let v = d0 * 10_000_000_000_000 + d1 * 1_000_000_000_000 + d2 * 100_000_000_000 + d3
                * 10_000_000_000 + d4 * 1_000_000_000 + d5 * 100_000_000 + d6 * 10_000_000 + d7
                * 1_000_000 + d9 * 100_000 + d10 * 10_000 + d11 * 1_000 + d12 * 100 + d13 * 10
                + d14;
            &&& 0 <= v < 100_000_000_000_000
            &&& v / 10_000_000_000_000 % 10 == d0
            &&& v / 1_000_000_000_000 % 10 == d1
            &&& v / 100_000_000_000 % 10 == d2
            &&& v / 10_000_000_000 % 10 == d3
            &&& v / 1_000_000_000 % 10 == d4
            &&& v / 100_000_000 % 10 == d5
            &&& v / 10_000_000 % 10 == d6
            &&& v / 1_000_000 % 10 == d7
            &&& v / 100_000 % 10 == d9
            &&& v / 10_000 % 10 == d10
            &&& v / 1_000 % 10 == d11
            &&& v / 100 % 10 == d12
            &&& v / 10 % 10 == d13
            &&& v % 10 == d14
        }),
{
    let v = d0 * 10_000_000_000_000 + d1 * 1_000_000_000_000 + d2 * 100_000_000_000 + d3
        * 10_000_000_000 + d4 * 1_000_000_000 + d5 * 100_000_000 + d6 * 10_000_000 + d7 * 1_000_000
        + d9 * 100_000 + d10 * 10_000 + d11 * 1_000 + d12 * 100 + d13 * 10 + d14;
    lemma_place(v, 10_000_000_000_000, 0, d0, v - d0 * 10_000_000_000_000);
    lemma_place(
        v,
        1_000_000_000_000,
        d0,
        d1,
        v - d0 * 10_000_000_000_000 - d1 * 1_000_000_000_000,
    );
    lemma_place(
        v,
        100_000_000_000,
        d0 * 10 + d1,
        d2,
        v - d0 * 10_000_000_000_000 - d1 * 1_000_000_000_000 - d2 * 100_000_000_000,
    );
    lemma_place(
        v,
        10_000_000_000,
        d0 * 100 + d1 * 10 + d2,
        d3,
        d4 * 1_000_000_000 + d5 * 100_000_000 + d6 * 10_000_000 + d7 * 1_000_000 + d9 * 100_000
            + d10 * 10_000 + d11 * 1_000 + d12 * 100 + d13 * 10 + d14,
    );
    lemma_place(
        v,
        1_000_000_000,
        d0 * 1_000 + d1 * 100 + d2 * 10 + d3,
        d4,
        d5 * 100_000_000 + d6 * 10_000_000 + d7 * 1_000_000 + d9 * 100_000 + d10 * 10_000 + d11
            * 1_000 + d12 * 100 + d13 * 10 + d14,
    );
    lemma_place(
        v,
        100_000_000,
        d0 * 10_000 + d1 * 1_000 + d2 * 100 + d3 * 10 + d4,
        d5,
        d6 * 10_000_000 + d7 * 1_000_000 + d9 * 100_000 + d10 * 10_000 + d11 * 1_000 + d12 * 100
            + d13 * 10 + d14,
    );
    lemma_place(
        v,
        10_000_000,
        d0 * 100_000 + d1 * 10_000 + d2 * 1_000 + d3 * 100 + d4 * 10 + d5,
        d6,
        d7 * 1_000_000 + d9 * 100_000 + d10 * 10_000 + d11 * 1_000 + d12 * 100 + d13 * 10 + d14,
    );
    lemma_place(
        v,
        1_000_000,
        d0 * 1_000_000 + d1 * 100_000 + d2 * 10_000 + d3 * 1_000 + d4 * 100 + d5 * 10 + d6,
        d7,
        d9 * 100_000 + d10 * 10_000 + d11 * 1_000 + d12 * 100 + d13 * 10 + d14,
    );
    lemma_place(
        v,
        100_000,
        d0 * 10_000_000 + d1 * 1_000_000 + d2 * 100_000 + d3 * 10_000 + d4 * 1_000 + d5 * 100 + d6
            * 10 + d7,
        d9,
        d10 * 10_000 + d11 * 1_000 + d12 * 100 + d13 * 10 + d14,
    );
    lemma_place(
        v,
        10_000,
        d0 * 100_000_000 + d1 * 10_000_000 + d2 * 1_000_000 + d3 * 100_000 + d4 * 10_000 + d5
            * 1_000 + d6 * 100 + d7 * 10 + d9,
        d10,
        d11 * 1_000 + d12 * 100 + d13 * 10 + d14,
    );
    lemma_place(
        v,
        1_000,
        d0 * 1_000_000_000 + d1 * 100_000_000 + d2 * 10_000_000 + d3 * 1_000_000 + d4 * 100_000
            + d5 * 10_000 + d6 * 1_000 + d7 * 100 + d9 * 10 + d10,
        d11,
        d12 * 100 + d13 * 10 + d14,
    );
    lemma_place(
        v,
        100,
        d0 * 10_000_000_000 + d1 * 1_000_000_000 + d2 * 100_000_000 + d3 * 10_000_000 + d4
            * 1_000_000 + d5 * 100_000 + d6 * 10_000 + d7 * 1_000 + d9 * 100 + d10 * 10 + d11,
        d12,
        d13 * 10 + d14,
    );
    lemma_place(
        v,
        10,
        d0 * 100_000_000_000 + d1 * 10_000_000_000 + d2 * 1_000_000_000 + d3 * 100_000_000 + d4
            * 10_000_000 + d5 * 1_000_000 + d6 * 100_000 + d7 * 10_000 + d9 * 1_000 + d10 * 100
            + d11 * 10 + d12,
        d13,
        d14,
    );
    lemma_place(
        v,
        1,
        d0 * 1_000_000_000_000 + d1 * 100_000_000_000 + d2 * 10_000_000_000 + d3 * 1_000_000_000
            + d4 * 100_000_000 + d5 * 10_000_000 + d6 * 1_000_000 + d7 * 100_000 + d9 * 10_000
            + d10 * 1_000 + d11 * 100 + d12 * 10 + d13,
        d14,
        0,
    );
}

/// The digit of `v` at the place with value `m` is `d`, read off from a
/// decomposition of `v` into the digits above, the digit at, and the rest
/// below that place.
proof fn lemma_place(v: int, m: int, q: int, d: int, r: int)
    requires
        1 <= m,
        0 <= d < 10,
        0 <= r < m,
        v == (q * 10 + d) * m + r,
    ensures
        v / m % 10 == d,
{
    lemma_fundamental_div_mod_converse(v, m, q * 10 + d, r);
    lemma_mod_multiples_vanish(q, d, 10);
    lemma_small_mod(d as nat, 10);
}

/// A number below the fourteen-digit limit is the sum of its place-wise
/// digits against their place values.
proof fn lemma_digits_unpack(v: int)
    requires
        0 <= v < 100_000_000_000_000,
    ensures
        v == v / 10_000_000_000_000 % 10 * 10_000_000_000_000 + v / 1_000_000_000_000 % 10
            * 1_000_000_000_000 + v / 100_000_000_000 % 10 * 100_000_000_000 + v / 10_000_000_000
            % 10 * 10_000_000_000 + v / 1_000_000_000 % 10 * 1_000_000_000 + v / 100_000_000 % 10
            * 100_000_000 + v / 10_000_000 % 10 * 10_000_000 + v / 1_000_000 % 10 * 1_000_000 + v
            / 100_000 % 10 * 100_000 + v / 10_000 % 10 * 10_000 + v / 1_000 % 10 * 1_000 + v / 100
            % 10 * 100 + v / 10 % 10 * 10 + v % 10,
{
    lemma_fundamental_div_mod(v, 10);
    lemma_mod_division_less_than_divisor(v, 10);
    lemma_split(v, 10);
    lemma_split(v, 100);
    lemma_split(v, 1_000);
    lemma_split(v, 10_000);
    lemma_split(v, 100_000);
    lemma_split(v, 1_000_000);
    lemma_split(v, 10_000_000);
    lemma_split(v, 100_000_000);
    lemma_split(v, 1_000_000_000);
    lemma_split(v, 10_000_000_000);
    lemma_split(v, 100_000_000_000);
    lemma_split(v, 1_000_000_000_000);
    lemma_fundamental_div_mod(v, 10_000_000_000_000);
    lemma_mod_division_less_than_divisor(v, 10_000_000_000_000);
    lemma_div_pos_is_pos(v, 10_000_000_000_000);
    assert(v / 10_000_000_000_000 < 10);
    lemma_small_mod((v / 10_000_000_000_000) as nat, 10);
}

/// One step of reading a number off place by place: the digits of `v` from
/// place `m` up are the digit at place `m` plus ten times the digits from
/// place `10 * m` up.
proof fn lemma_split(v: int, m: int)
    requires
        0 <= v,
        1 <= m,
    ensures
        v / m == v / (m * 10) * 10 + v / m % 10,
        0 <= v / m % 10 < 10,
{
    lemma_div_pos_is_pos(v, m);
    lemma_fundamental_div_mod(v / m, 10);
    lemma_mod_division_less_than_divisor(v / m, 10);
    lemma_div_denominator(v, m, 10);
}

/// The numeric value of one digit character.
fn char_digit(c: char) -> (r: Option<u64>)
    ensures
        r is Some <==> is_digit(c),
        r is Some ==> r->Some_0 == digit_val(c) && r->Some_0 < 10,
{
    let u = c as u32;
    if 48 <= u && u <= 57 {
        Some((u - 48) as u64)
    } else {
        None
    }
}

/// A one-character string for one decimal digit.
fn digit_str(d: u64) -> (r: &'static str)
    requires
        d < 10,
    ensures
        r@ =~= seq![digit_char(d as int)],
{
    proof {
        reveal_strlit("0");
        reveal_strlit("1");
        reveal_strlit("2");
        reveal_strlit("3");
        reveal_strlit("4");
        reveal_strlit("5");
        reveal_strlit("6");
        reveal_strlit("7");
        reveal_strlit("8");
        reveal_strlit("9");
    }
    if d == 0 {
        "0"
    } else if d == 1 {
        "1"
    } else if d == 2 {
        "2"
    } else if d == 3 {
        "3"
    } else if d == 4 {
        "4"
    } else if d == 5 {
        "5"
    } else if d == 6 {
        "6"
    } else if d == 7 {
        "7"
    } else if d == 8 {
        "8"
    } else {
        "9"
    }
}

} // verus!
