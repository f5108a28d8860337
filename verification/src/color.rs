use crate::error::ValidationError;
use vstd::prelude::*;

verus! {

/// An RGB color for the grid strokes or dots.
#[derive(Copy, Clone, Debug, PartialEq, Eq, Structural)]
pub struct Color {
    pub r: u8,
    pub g: u8,
    pub b: u8,
}

/// Relies on `String::push`: appends the given character to the end of the
/// string.
pub assume_specification[ String::push ](s: &mut String, ch: char)
    ensures
        final(s)@ == old(s)@.push(ch),
;

pub open spec fn is_hex_digit(c: char) -> bool {
    let u = c as u32;
    (48 <= u <= 57) || (97 <= u <= 102) || (65 <= u <= 70)
}

/// The numeric value of a hexadecimal digit (either case).
pub open spec fn hex_digit_val(c: char) -> nat {
    let u = c as u32;
    if 48 <= u <= 57 {
        (u - 48) as nat
    } else if 97 <= u <= 102 {
        (u - 87) as nat
    } else if 65 <= u <= 70 {
        (u - 55) as nat
    } else {
        0
    }
}

pub open spec fn all_hex(s: Seq<char>) -> bool {
    forall|i: int| 0 <= i < s.len() ==> is_hex_digit(#[trigger] s[i])
}

/// The value of a sequence of hexadecimal digits, most significant first.
pub open spec fn hex_val(s: Seq<char>) -> nat
    decreases s.len(),
{
    if s.len() == 0 {
        0
    } else {
        hex_val(s.drop_last()) * 16 + hex_digit_val(s.last())
    }
}

/// The color string with every leading `#` removed.
pub open spec fn strip_hash(s: Seq<char>) -> Seq<char>
    decreases s.len(),
{
    if s.len() > 0 && s[0] == '#' {
        strip_hash(s.skip(1))
    } else {
        s
    }
}

/// Whether a stripped color string has an accepted digit count.
pub open spec fn accepted_color_len(t: Seq<char>) -> bool {
    t.len() == 1 || t.len() == 2 || t.len() == 3 || t.len() == 6
}

/// The color denoted by a stripped, all-hex color string:
/// one digit is a grayscale nibble shifted to the high half of each channel,
/// two digits a grayscale byte, three digits one nibble per channel
/// replicated to a byte, six digits a standard RGB byte triple.
pub open spec fn color_of(t: Seq<char>) -> Color {
    let x = hex_val(t);
    if t.len() == 1 {
        Color { r: (x * 16) as u8, g: (x * 16) as u8, b: (x * 16) as u8 }
    } else if t.len() == 2 {
        Color { r: x as u8, g: x as u8, b: x as u8 }
    } else if t.len() == 3 {
        Color {
            r: ((x / 256) * 17) as u8,
            g: (((x / 16) % 16) * 17) as u8,
            b: ((x % 16) * 17) as u8,
        }
    } else {
        Color { r: (x / 65536) as u8, g: ((x / 256) % 256) as u8, b: (x % 256) as u8 }
    }
}

/// 16^k.
pub open spec fn pow16(k: nat) -> nat
    decreases k,
{
    if k == 0 {
        1
    } else {
        16 * pow16((k - 1) as nat)
    }
}

proof fn lemma_hex_val_bound(s: Seq<char>)
    ensures
        hex_val(s) < pow16(s.len()),
    decreases s.len(),
{
    if s.len() > 0 {
        lemma_hex_val_bound(s.drop_last());
    }
}

proof fn lemma_strip_hash_skip(s: Seq<char>, i: int)
    requires
        0 <= i <= s.len(),
        forall|j: int| 0 <= j < i ==> s[j] == '#',
        i == s.len() || s[i] != '#',
    ensures
        strip_hash(s) == s.skip(i),
    decreases i,
{
    if i == 0 {
        assert(s.skip(0) =~= s);
    } else {
        assert(s[0] == '#');
        lemma_strip_hash_skip(s.skip(1), i - 1);
        assert(s.skip(1).skip(i - 1) =~= s.skip(i));
    }
}

/// Parses a color given as hex digits with any number of leading `#`.
/// Accepted digit counts are 1, 2, 3 and 6; any other count is rejected
/// before the digits themselves are examined.
pub fn color_parser(s: &str) -> (r: Result<Color, ValidationError>)
    ensures
        ({
            let t = strip_hash(s@);
            match r {
                Ok(c) => accepted_color_len(t) && all_hex(t) && c == color_of(t),
                Err(e) => {
                    ||| (e == ValidationError::InvalidColor && !accepted_color_len(t))
                    ||| (e == ValidationError::InvalidHexDigit && accepted_color_len(t)
                        && !all_hex(t))
                },
            }
        }),
{
    let n = s.unicode_len();
    let mut i: usize = 0;
    while i < n && s.get_char(i) == '#'
        invariant
            n == s@.len(),
            0 <= i <= n,
            forall|j: int| 0 <= j < i ==> s@[j] == '#',
        decreases n - i,
    {
        i = i + 1;
    }
    proof {
        lemma_strip_hash_skip(s@, i as int);
    }
    let ghost t = strip_hash(s@);
    let l = n - i;
    if !(l == 1 || l == 2 || l == 3 || l == 6) {
        return Err(ValidationError::InvalidColor);
    }
    let mut acc: u32 = 0;
    let mut j = i;
    while j < n
        invariant
            n == s@.len(),
            i <= j <= n,
            t == s@.skip(i as int),
            t == strip_hash(s@),
            n - i == 1 || n - i == 2 || n - i == 3 || n - i == 6,
            forall|k: int| i <= k < j ==> is_hex_digit(#[trigger] s@[k]),
            acc == hex_val(s@.subrange(i as int, j as int)),
            acc < pow16((j - i) as nat),
        decreases n - j,
    {
        let c = s.get_char(j);
        let u = c as u32;
        let v: u32 = if 48 <= u && u <= 57 {
            u - 48
        } else if 97 <= u && u <= 102 {
            u - 87
        } else if 65 <= u && u <= 70 {
            u - 55
        } else {
            proof {
                assert(t[j - i] == s@[j as int]);
                assert(!is_hex_digit(t[j - i]));
                assert(!all_hex(t));
            }
            return Err(ValidationError::InvalidHexDigit);
        };
        proof {
            lemma_pow16_values();
            lemma_pow16_increases((j - i) as nat, 5);
            assert(s@.subrange(i as int, j + 1 as int).drop_last() =~= s@.subrange(
                i as int,
                j as int,
            ));
            assert(s@.subrange(i as int, j + 1 as int).last() == s@[j as int]);
        }
        acc = acc * 16 + v;
        j = j + 1;
    }
    proof {
        assert(s@.subrange(i as int, n as int) =~= s@.skip(i as int));
        lemma_hex_val_bound(t);
        lemma_pow16_values();
    }
    let color = if l == 1 {
        Color { r: (acc * 16) as u8, g: (acc * 16) as u8, b: (acc * 16) as u8 }
    } else if l == 2 {
        Color { r: acc as u8, g: acc as u8, b: acc as u8 }
    } else if l == 3 {
        Color {
            r: ((acc / 256) * 17) as u8,
            g: (((acc / 16) % 16) * 17) as u8,
            b: ((acc % 16) * 17) as u8,
        }
    } else {
        Color { r: (acc / 65536) as u8, g: ((acc / 256) % 256) as u8, b: (acc % 256) as u8 }
    };
    Ok(color)
}

proof fn lemma_pow16_values()
    ensures
        pow16(0) == 1,
        pow16(1) == 16,
        pow16(2) == 256,
        pow16(3) == 4096,
        pow16(4) == 65536,
        pow16(5) == 1048576,
        pow16(6) == 16777216,
{
    assert(pow16(0) == 1);
    assert(pow16(1) == 16);
    assert(pow16(2) == 256);
    assert(pow16(3) == 4096);
    assert(pow16(4) == 65536);
    assert(pow16(5) == 1048576);
    assert(pow16(6) == 16777216);
}

proof fn lemma_pow16_increases(a: nat, b: nat)
    requires
        a <= b,
    ensures
        pow16(a) <= pow16(b),
    decreases b,
{
    if a < b && b > 0 {
        lemma_pow16_increases(a, (b - 1) as nat);
    }
}

/// The character of one hexadecimal digit value, upper case.
pub open spec fn hex_digit_char(v: nat) -> char {
    if v < 10 {
        ((48 + v) as u32) as char
    } else {
        ((55 + v) as u32) as char
    }
}

/// Two upper-case hex digits of a byte, most significant first.
pub open spec fn byte_hex(b: nat) -> Seq<char> {
    seq![hex_digit_char(b / 16), hex_digit_char(b % 16)]
}

/// The `#RRGGBB` form of a color.
pub open spec fn color_hex(c: Color) -> Seq<char> {
    seq!['#'] + byte_hex(c.r as nat) + byte_hex(c.g as nat) + byte_hex(c.b as nat)
}

fn hex_char(v: u8) -> (c: char)
    requires
        v < 16,
    ensures
        c == hex_digit_char(v as nat),
{
    if v < 10 {
        (48 + v) as char
    } else {
        (55 + v) as char
    }
}

impl Color {
    /// The `#RRGGBB` notation of this color, upper case.
    pub fn to_hex(&self) -> (s: String)
        ensures
            s@ == color_hex(*self),
    {
        let mut out = String::new();
        out.push('#');
        out.push(hex_char(self.r / 16));
        out.push(hex_char(self.r % 16));
        out.push(hex_char(self.g / 16));
        out.push(hex_char(self.g % 16));
        out.push(hex_char(self.b / 16));
        out.push(hex_char(self.b % 16));
        proof {
            assert(out@ =~= color_hex(*self));
        }
        out
    }
}

} // verus!
