use vstd::prelude::*;

verus! {

/// An RGBA color with 8-bit channels; `opacity` 255 is fully opaque.
#[derive(Clone, Copy, Debug, PartialEq, Eq, Structural)]
pub struct Color {
    pub red: u8,
    pub green: u8,
    pub blue: u8,
    pub opacity: u8,
}

/// The 32-bit ARGB8888 word of a color: opacity, red, green, blue from the
/// most significant byte down.
pub open spec fn pack(c: Color) -> int {
    c.opacity * 0x100_0000 + c.red * 0x1_0000 + c.green * 0x100 + c.blue
}

/// The color whose ARGB8888 word is `v`.
pub open spec fn unpack(v: u32) -> Color {
    Color {
        opacity: (v / 0x100_0000) as u8,
        red: ((v / 0x1_0000) % 0x100) as u8,
        green: ((v / 0x100) % 0x100) as u8,
        blue: (v % 0x100) as u8,
    }
}

/// One channel of a linear blend: `t` out of 255 of the way from `a` to `b`.
pub open spec fn mix(a: u8, b: u8, t: u8) -> u8 {
    ((a * (255 - t) + b * t) / 255) as u8
}

/// The linear blend of two colors, channel by channel: `t` out of 255 of the
/// way from `a` to `b`.
pub open spec fn blended(a: Color, b: Color, t: u8) -> Color {
    Color {
        red: mix(a.red, b.red, t),
        green: mix(a.green, b.green, t),
        blue: mix(a.blue, b.blue, t),
        opacity: mix(a.opacity, b.opacity, t),
    }
}

/// The value of a hexadecimal digit.
pub open spec fn hex_digit(c: char) -> Option<int> {
    if '0' <= c && c <= '9' {
        Some(c as int - '0' as int)
    } else if 'a' <= c && c <= 'f' {
        Some(c as int - 'a' as int + 10)
    } else if 'A' <= c && c <= 'F' {
        Some(c as int - 'A' as int + 10)
    } else {
        None
    }
}

/// Whether every character of `s` is a hexadecimal digit.
pub open spec fn all_hex(s: Seq<char>) -> bool {
    forall|i: int| 0 <= i < s.len() ==> (#[trigger] hex_digit(s[i])) is Some
}

/// The number that the hexadecimal digits `s` write.
pub open spec fn hex_value(s: Seq<char>) -> int
    decreases s.len(),
{
    if s.len() == 0 {
        0
    } else {
        hex_value(s.drop_last()) * 16 + hex_digit(s.last())->0
    }
}

/// The 32-bit number written in hexadecimal by `s`, with an optional leading
/// `+`: `None` when there is no digit, a character is not a digit, or the
/// number does not fit in 32 bits.
pub open spec fn parse_hex(s: Seq<char>) -> Option<u32> {
    let d = if s.len() > 0 && s[0] == '+' {
        s.drop_first()
    } else {
        s
    };
    if d.len() > 0 && all_hex(d) && hex_value(d) <= u32::MAX {
        Some(hex_value(d) as u32)
    } else {
        None
    }
}

proof fn lemma_hex_value_nonneg(s: Seq<char>)
    requires
        all_hex(s),
    ensures
        hex_value(s) >= 0,
    decreases s.len(),
{
    if s.len() > 0 {
        assert(hex_digit(s[s.len() - 1]) is Some);
        assert(all_hex(s.drop_last())) by {
            assert forall|i: int| 0 <= i < s.drop_last().len() implies (#[trigger] hex_digit(s.drop_last()[i])) is Some by {
                assert(s.drop_last()[i] == s[i]);
            }
        }
        lemma_hex_value_nonneg(s.drop_last());
    }
}

fn hex_digit_value(c: char) -> (r: Option<u32>)
    ensures
        match hex_digit(c) {
            Some(v) => r == Some(v as u32),
            None => r is None,
        },
{
    if '0' <= c && c <= '9' {
        Some((c as u32) - ('0' as u32))
    } else if 'a' <= c && c <= 'f' {
        Some((c as u32) - ('a' as u32) + 10)
    } else if 'A' <= c && c <= 'F' {
        Some((c as u32) - ('A' as u32) + 10)
    } else {
        None
    }
}

/// Parses a 32-bit hexadecimal number with an optional leading `+`.
pub fn parse_hex_u32(s: &str) -> (r: Option<u32>)
    ensures
        r == parse_hex(s@),
{
    let n = s.unicode_len();
    let mut i: usize = 0;
    if n > 0 && s.get_char(0) == '+' {
        i = 1;
    }
    let start = i;
    let ghost d = if s@.len() > 0 && s@[0] == '+' { s@.drop_first() } else { s@ };
    assert(d =~= s@.subrange(start as int, n as int));
    if start == n {
        return None;
    }
    let mut acc: u64 = 0;
    while i < n
        invariant
            start <= i <= n,
            n == s@.len(),
            d =~= s@.subrange(start as int, n as int),
            d == (if s@.len() > 0 && s@[0] == '+' { s@.drop_first() } else { s@ }),
            d.len() > 0,
            all_hex(d.take(i - start)),
            acc <= u32::MAX,
            acc == hex_value(d.take(i - start)),
        decreases n - i,
    {
        let c = s.get_char(i);
        let ghost t = d.take(i - start);
        let ghost t1 = d.take(i - start + 1);
        assert(t1.drop_last() =~= t);
        assert(t1.last() == c);
        match hex_digit_value(c) {
            Some(v) => {
                assert(all_hex(t1)) by {
                    assert forall|k: int| 0 <= k < t1.len() implies (#[trigger] hex_digit(t1[k])) is Some by {
                        if k < t.len() {
                            assert(t1[k] == t[k]);
                        }
                    }
                }
                acc = acc * 16 + v as u64;
                assert(hex_value(t1) == hex_value(t) * 16 + hex_digit(c)->0);
                if acc > u32::MAX as u64 {
                    proof {
                        lemma_hex_prefix_grows(d, i - start + 1);
                        assert(!(d.len() > 0 && all_hex(d) && hex_value(d) <= u32::MAX));
                    }
                    return None;
                }
            },
            None => {
                proof {
                    assert(d[i - start] == s@[i as int]);
                    assert(hex_digit(d[i - start]) is None);
                    assert(!all_hex(d));
                }
                return None;
            },
        }
        i = i + 1;
    }
    assert(d.take(n - start) =~= d);
    Some(acc as u32)
}

/// Once the digits read so far exceed 32 bits, so does every longer run of
/// digits.
proof fn lemma_hex_prefix_grows(d: Seq<char>, k: int)
    requires
        0 < k <= d.len(),
        all_hex(d.take(k)),
        hex_value(d.take(k)) > u32::MAX,
    ensures
        !(all_hex(d) && hex_value(d) <= u32::MAX),
    decreases d.len() - k,
{
    if k < d.len() && all_hex(d) {
        let t = d.take(k);
        let t1 = d.take(k + 1);
        assert(t1.drop_last() =~= t);
        assert(hex_digit(d[k]) is Some);
        assert(all_hex(t1)) by {
            assert forall|j: int| 0 <= j < t1.len() implies (#[trigger] hex_digit(t1[j])) is Some by {
                assert(t1[j] == d[j]);
            }
        }
        lemma_hex_prefix_grows(d, k + 1);
    } else if k == d.len() {
        assert(d.take(k) =~= d);
    }
}

/// Unpacking the packed word of any color gives the color back.
pub proof fn lemma_unpack_pack(c: Color)
    ensures
        unpack(pack(c) as u32) == c,
{
    let v = pack(c);
    let a = c.opacity as int;
    let r = c.red as int;
    let g = c.green as int;
    let b = c.blue as int;
    vstd::arithmetic::div_mod::lemma_fundamental_div_mod_converse(
        v,
        0x100_0000,
        a,
        r * 0x1_0000 + g * 0x100 + b,
    );
    vstd::arithmetic::div_mod::lemma_fundamental_div_mod_converse(
        v,
        0x1_0000,
        a * 0x100 + r,
        g * 0x100 + b,
    );
    vstd::arithmetic::div_mod::lemma_fundamental_div_mod_converse(
        a * 0x100 + r,
        0x100,
        a,
        r,
    );
    vstd::arithmetic::div_mod::lemma_fundamental_div_mod_converse(
        v,
        0x100,
        a * 0x1_0000 + r * 0x100 + g,
        b,
    );
    vstd::arithmetic::div_mod::lemma_fundamental_div_mod_converse(
        a * 0x1_0000 + r * 0x100 + g,
        0x100,
        a * 0x100 + r,
        g,
    );
}

/// Packing the unpacked word gives the word back.
pub proof fn lemma_pack_unpack(v: u32)
    ensures
        pack(unpack(v)) == v,
{
    let q1 = v / 0x100;
    let q2 = q1 / 0x100;
    let q3 = q2 / 0x100;
    vstd::arithmetic::div_mod::lemma_fundamental_div_mod(v as int, 0x100);
    vstd::arithmetic::div_mod::lemma_fundamental_div_mod(q1 as int, 0x100);
    vstd::arithmetic::div_mod::lemma_fundamental_div_mod(q2 as int, 0x100);
    vstd::arithmetic::div_mod::lemma_div_denominator(v as int, 0x100, 0x100);
    vstd::arithmetic::div_mod::lemma_div_denominator(v as int, 0x1_0000, 0x100);
    assert(q3 < 0x100) by {
        vstd::arithmetic::div_mod::lemma_div_denominator(v as int, 0x100, 0x1_0000);
    }
}

impl Color {
    /// An opaque color.
    pub fn rgb(red: u8, green: u8, blue: u8) -> (r: Color)
        ensures
            r == (Color { red, green, blue, opacity: 255 }),
    {
        Color { red, green, blue, opacity: 255 }
    }

    pub open spec fn white_spec() -> Color {
        Color { red: 255, green: 255, blue: 255, opacity: 255 }
    }

    pub fn white() -> (r: Color)
        ensures
            r == Color::white_spec(),
    {
        Color::rgb(255, 255, 255)
    }

    pub open spec fn black_spec() -> Color {
        Color { red: 0, green: 0, blue: 0, opacity: 255 }
    }

    pub fn black() -> (r: Color)
        ensures
            r == Color::black_spec(),
    {
        Color::rgb(0, 0, 0)
    }

    pub fn yellow() -> (r: Color)
        ensures
            r == (Color { red: 191, green: 191, blue: 63, opacity: 255 }),
    {
        Color::rgb(191, 191, 63)
    }

    /// The opaque color written `0xRRGGBB` in a theme file; text after the
    /// `0x` that is not a 32-bit hexadecimal number gives opaque red.
    pub fn from_hex(s: &str) -> (r: Color)
        requires
            s@.len() >= 2,
            s@[0] == '0',
            s@[1] == 'x',
        ensures
            r == match parse_hex(s@.subrange(2, s@.len() as int)) {
                Some(v) => Color {
                    red: ((v / 0x1_0000) % 0x100) as u8,
                    green: ((v / 0x100) % 0x100) as u8,
                    blue: (v % 0x100) as u8,
                    opacity: 255,
                },
                None => Color { red: 255, green: 0, blue: 0, opacity: 255 },
            },
    {
        let hex = s.substring_char(2, s.unicode_len());
        match parse_hex_u32(hex) {
            Some(v) => Color::rgb(((v / 0x1_0000) % 0x100) as u8, ((v / 0x100) % 0x100) as u8, (v % 0x100) as u8),
            None => Color::rgb(255, 0, 0),
        }
    }

    /// The color of an ARGB8888 word.
    pub fn from_argb8888(val: u32) -> (r: Color)
        ensures
            r == unpack(val),
    {
        Color {
            opacity: (val / 0x100_0000) as u8,
            red: ((val / 0x1_0000) % 0x100) as u8,
            green: ((val / 0x100) % 0x100) as u8,
            blue: (val % 0x100) as u8,
        }
    }

    /// The ARGB8888 word of this color.
    pub fn as_argb8888(&self) -> (r: u32)
        ensures
            r == pack(*self),
    {
        (self.opacity as u32) * 0x100_0000 + (self.red as u32) * 0x1_0000 + (self.green as u32)
            * 0x100 + (self.blue as u32)
    }

    /// The bytes of the ARGB8888 word, most significant first.
    pub fn argb_bytes(&self) -> (r: [u8; 4])
        ensures
            r@ == seq![self.opacity, self.red, self.green, self.blue],
    {
        [self.opacity, self.red, self.green, self.blue]
    }

    /// Linear blend towards `other`: `ratio` is the share of `other`, out of 255.
    pub fn blend(&self, other: &Color, ratio: u8) -> (r: Color)
        ensures
            r == blended(*self, *other, ratio),
    {
        Color {
            red: mix_channel(self.red, other.red, ratio),
            green: mix_channel(self.green, other.green, ratio),
            blue: mix_channel(self.blue, other.blue, ratio),
            opacity: mix_channel(self.opacity, other.opacity, ratio),
        }
    }
}

fn mix_channel(a: u8, b: u8, t: u8) -> (r: u8)
    ensures
        r == mix(a, b, t),
{
    let ta: u32 = 255 - t as u32;
    proof {
        vstd::arithmetic::mul::lemma_mul_upper_bound(a as int, 255, ta as int, 255);
        vstd::arithmetic::mul::lemma_mul_upper_bound(b as int, 255, t as int, 255);
        vstd::arithmetic::mul::lemma_mul_is_distributive_add(255, ta as int, t as int);
    }
    let wa: u32 = (a as u32) * ta;
    let wb: u32 = (b as u32) * (t as u32);
    assert(wa <= 255 * ta && wb <= 255 * t) by (nonlinear_arith)
        requires
            wa == a * ta,
            wb == b * t,
            a <= 255,
            b <= 255,
    ;
    let s: u32 = wa + wb;
    assert(s / 255 <= 255);
    (s / 255) as u8
}

} // verus!
