//! Offsets of injects from the start of the competition, written
//! `HH:MM:SS`.
use crate::text::{
    dec, digit_char, is_digit, lemma_dec_digits, lemma_split_three, push_decimal, push_signed_decimal,
    signed_dec, split_fields, split_on,
};
use vstd::prelude::*;

verus! {

/// A signed number of seconds.
#[derive(Clone, Copy, Debug, PartialEq, Eq, Structural)]
pub struct Offset {
    pub seconds: i64,
}

/// The value of a decimal digit character.
pub open spec fn digit_value(c: char) -> int {
    (c as int) - ('0' as int)
}

/// The value of a run of decimal digits (leading zeros allowed).
pub open spec fn digits_value(s: Seq<char>) -> int
    decreases s.len(),
{
    if s.len() == 0 {
        0
    } else {
        digits_value(s.drop_last()) * 10 + digit_value(s.last())
    }
}

/// One or more decimal digits.
pub open spec fn all_digits(s: Seq<char>) -> bool {
    s.len() > 0 && forall|i: int| 0 <= i < s.len() ==> is_digit(#[trigger] s[i])
}

/// The integer that `s` writes: an optional `+` or `-`, then one or more
/// decimal digits.
pub open spec fn int_text_value(s: Seq<char>) -> Option<int> {
    if s.len() > 0 && (s[0] == '+' || s[0] == '-') {
        if all_digits(s.drop_first()) {
            Some(
                if s[0] == '-' {
                    -digits_value(s.drop_first())
                } else {
                    digits_value(s.drop_first())
                },
            )
        } else {
            None
        }
    } else if all_digits(s) {
        Some(digits_value(s))
    } else {
        None
    }
}

/// Whether `n` fits in an `i64`.
pub open spec fn fits_i64(n: int) -> bool {
    i64::MIN <= n <= i64::MAX
}

/// The `i64` that `s` writes, if it writes one that fits.
pub open spec fn i64_of(s: Seq<char>) -> Option<int> {
    match int_text_value(s) {
        Some(v) => if fits_i64(v) {
            Some(v)
        } else {
            None
        },
        None => None,
    }
}

/// The offset that `s` writes as hours, minutes and seconds separated by
/// colons, each an `i64`; each part may be negative or out of its usual
/// range, and the total must fit in an `i64`.
pub open spec fn offset_of(s: Seq<char>) -> Option<Offset> {
    let parts = split_on(s, ':');
    if parts.len() == 3 && i64_of(parts[0]) is Some && i64_of(parts[1]) is Some && i64_of(
        parts[2],
    ) is Some {
        let total = i64_of(parts[0])->0 * 3600 + i64_of(parts[1])->0 * 60 + i64_of(parts[2])->0;
        if fits_i64(total) {
            Some(Offset { seconds: total as i64 })
        } else {
            None
        }
    } else {
        None
    }
}

/// Just above the magnitude of any `i64`.
const MAGNITUDE_CAP: i128 = 0x8000_0000_0000_0001;

fn digit_at(c: char) -> (r: i128)
    requires
        is_digit(c),
    ensures
        r == digit_value(c),
        0 <= r <= 9,
{
    (c as u32 - '0' as u32) as i128
}

/// The `i64` that the characters write.
pub fn parse_i64(s: &Vec<char>) -> (r: Option<i64>)
    ensures
        r matches Some(v) ==> i64_of(s@) == Some(v as int),
        r is None ==> i64_of(s@) is None,
{
    if s.len() == 0 {
        return None;
    }
    let negative = s[0] == '-';
    let start: usize = if s[0] == '-' || s[0] == '+' {
        1
    } else {
        0
    };
    let ghost d = s@.subrange(start as int, s@.len() as int);
    if start == 1 {
        assert(s@.drop_first() =~= d);
    } else {
        assert(s@ =~= d);
    }
    if start == s.len() {
        return None;
    }
    let mut acc: i128 = 0;
    let mut i: usize = start;
    while i < s.len()
        invariant
            start <= i <= s@.len(),
            s@.len() > 0,
            d == s@.subrange(start as int, s@.len() as int),
            start == 1 ==> s@.drop_first() == d,
            start == 0 ==> s@ == d,
            (start == 1) == (s@[0] == '-' || s@[0] == '+'),
            start <= 1,
            negative == (s@[0] == '-'),
            forall|k: int| start <= k < i ==> is_digit(#[trigger] s@[k]),
            acc == if digits_value(s@.subrange(start as int, i as int)) < MAGNITUDE_CAP {
                digits_value(s@.subrange(start as int, i as int))
            } else {
                MAGNITUDE_CAP as int
            },
            0 <= acc <= MAGNITUDE_CAP,
            0 <= digits_value(s@.subrange(start as int, i as int)),
        decreases s@.len() - i,
    {
        let c = s[i];
        if !('0' <= c && c <= '9') {
            assert(!is_digit(d[i - start]));
            return None;
        }
        let ghost before = s@.subrange(start as int, i as int);
        assert(s@.subrange(start as int, i + 1).drop_last() =~= before);
        let v = digit_at(c);
        let next = acc * 10 + v;
        acc = if next < MAGNITUDE_CAP {
            next
        } else {
            MAGNITUDE_CAP
        };
        i = i + 1;
    }
    assert(s@.subrange(start as int, s@.len() as int) =~= d);
    assert(all_digits(d));
    if negative {
        if acc > 0x8000_0000_0000_0000 {
            None
        } else {
            Some((0 - acc) as i64)
        }
    } else {
        if acc > 0x7fff_ffff_ffff_ffff {
            None
        } else {
            Some(acc as i64)
        }
    }
}

impl Offset {
    /// Reads an offset written `HH:MM:SS`.
    pub fn parse(s: &str) -> (r: Option<Offset>)
        ensures
            r == offset_of(s@),
    {
        let parts = split_fields(s, ':');
        if parts.len() != 3 {
            return None;
        }
        let h = match parse_i64(&parts[0]) {
            Some(v) => v,
            None => return None,
        };
        let m = match parse_i64(&parts[1]) {
            Some(v) => v,
            None => return None,
        };
        let sec = match parse_i64(&parts[2]) {
            Some(v) => v,
            None => return None,
        };
        let total: i128 = h as i128 * 3600 + m as i128 * 60 + sec as i128;
        if total < i64::MIN as i128 || total > i64::MAX as i128 {
            None
        } else {
            Some(Offset { seconds: total as i64 })
        }
    }
}

/// A number written with at least two characters, a zero put in front of
/// a single digit; a negative number keeps its sign and is not padded.
pub open spec fn pad2(n: int) -> Seq<char> {
    if 0 <= n < 10 {
        seq!['0'] + dec(n as nat)
    } else {
        signed_dec(n)
    }
}

/// An offset written `HH:MM:SS`. Hours are not wrapped; a negative offset
/// gives every part its sign (division rounds toward zero).
pub open spec fn offset_text(seconds: int) -> Seq<char> {
    let m = if seconds < 0 {
        -seconds
    } else {
        seconds
    };
    let sign = if seconds < 0 {
        -1int
    } else {
        1int
    };
    pad2(sign * (m / 3600)) + seq![':'] + pad2(sign * ((m % 3600) / 60)) + seq![':'] + pad2(
        sign * (m % 60),
    )
}

fn push_pad2(out: &mut String, n: i64)
    ensures
        final(out)@ == old(out)@ + pad2(n as int),
{
    if 0 <= n && n < 10 {
        out.append("0");
        proof {
            reveal_strlit("0");
        }
        push_decimal(out, n as u64);
        assert(final(out)@ =~= old(out)@ + pad2(n as int));
    } else {
        push_signed_decimal(out, n);
    }
}

impl Offset {
    /// The offset written `HH:MM:SS`.
    pub fn to_text(&self) -> (r: String)
        ensures
            r@ == offset_text(self.seconds as int),
    {
        let negative = self.seconds < 0;
        let m: u64 = if negative {
            (0i128 - self.seconds as i128) as u64
        } else {
            self.seconds as u64
        };
        let hours = m / 3600;
        let minutes = (m % 3600) / 60;
        let seconds = m % 60;
        let mut out = String::new();
        if negative {
            push_pad2(&mut out, 0 - hours as i64);
            out.append(":");
            push_pad2(&mut out, 0 - minutes as i64);
            out.append(":");
            push_pad2(&mut out, 0 - seconds as i64);
        } else {
            push_pad2(&mut out, hours as i64);
            out.append(":");
            push_pad2(&mut out, minutes as i64);
            out.append(":");
            push_pad2(&mut out, seconds as i64);
        }
        proof {
            reveal_strlit(":");
            let t = self.seconds as int;
            let mm = if t < 0 {
                -t
            } else {
                t
            };
            assert(mm == m as int);
            assert(hours as int == mm / 3600);
            assert(minutes as int == (mm % 3600) / 60);
            let hh = mm / 3600;
            let mi = (mm % 3600) / 60;
            if t < 0 {
                assert(-1int * hh == -hh);
                assert(-1int * mi == -mi);
            } else {
                assert(1int * hh == hh);
                assert(1int * mi == mi);
            }
            let sign = if t < 0 {
                -1int
            } else {
                1int
            };
            assert(sign * (mm / 3600) == if negative {
                -(hours as int)
            } else {
                hours as int
            });
            assert(sign * ((mm % 3600) / 60) == if negative {
                -(minutes as int)
            } else {
                minutes as int
            });
            assert(sign * (mm % 60) == if negative {
                -(seconds as int)
            } else {
                seconds as int
            });
        }
        assert(out@ =~= offset_text(self.seconds as int));
        out
    }
}

proof fn lemma_digit_value_of_char(k: nat)
    requires
        k < 10,
    ensures
        digit_value(digit_char(k)) == k,
{
}

proof fn lemma_dec_value(n: nat)
    ensures
        digits_value(dec(n)) == n,
        all_digits(dec(n)),
    decreases n,
{
    lemma_dec_digits(n);
    if n >= 10 {
        lemma_dec_value(n / 10);
        assert(dec(n).drop_last() == dec(n / 10));
        assert(dec(n).last() == digit_char(n % 10));
        lemma_digit_value_of_char(n % 10);
        assert(digits_value(dec(n)) == digits_value(dec(n / 10)) * 10 + digit_value(dec(n).last()));
        assert(n == (n / 10) * 10 + n % 10);
    } else {
        assert(dec(n).drop_last() =~= Seq::<char>::empty());
        assert(digits_value(Seq::<char>::empty()) == 0);
        assert(dec(n).last() == digit_char(n));
        lemma_digit_value_of_char(n);
    }
}

proof fn lemma_leading_zero(d: Seq<char>)
    ensures
        digits_value(seq!['0'] + d) == digits_value(d),
    decreases d.len(),
{
    if d.len() == 0 {
        assert(seq!['0'] + d =~= seq!['0']);
        assert(seq!['0'].drop_last() =~= Seq::<char>::empty());
        assert(digits_value(Seq::<char>::empty()) == 0);
        assert(digit_value('0') == 0);
        assert(digits_value(seq!['0']) == 0);
    } else {
        lemma_leading_zero(d.drop_last());
        assert((seq!['0'] + d).drop_last() =~= seq!['0'] + d.drop_last());
        assert((seq!['0'] + d).last() == d.last());
    }
}

proof fn lemma_pad2_reads_back(n: int)
    requires
        fits_i64(n),
    ensures
        i64_of(pad2(n)) == Some(n),
        forall|i: int| 0 <= i < pad2(n).len() ==> pad2(n)[i] != ':',
{
    if 0 <= n < 10 {
        let d = dec(n as nat);
        lemma_dec_value(n as nat);
        lemma_leading_zero(d);
        let t = seq!['0'] + d;
        assert(t[0] == '0');
        assert forall|i: int| 0 <= i < t.len() implies is_digit(#[trigger] t[i]) by {
            if i > 0 {
                assert(t[i] == d[i - 1]);
            }
        }
    } else if n >= 10 {
        lemma_dec_value(n as nat);
        assert(is_digit(dec(n as nat)[0]));
    } else {
        let d = dec((-n) as nat);
        lemma_dec_value((-n) as nat);
        let t = seq!['-'] + d;
        assert(t.drop_first() =~= d);
        assert forall|i: int| 0 <= i < t.len() implies t[i] != ':' by {
            if i > 0 {
                assert(t[i] == d[i - 1]);
                assert(is_digit(d[i - 1]));
            }
        }
    }
}

/// Writing an offset and reading it back gives the same offset.
pub proof fn lemma_offset_round_trip(seconds: i64)
    ensures
        offset_of(offset_text(seconds as int)) == Some(Offset { seconds }),
{
    let t = seconds as int;
    let m = if t < 0 {
        -t
    } else {
        t
    };
    let sign = if t < 0 {
        -1int
    } else {
        1int
    };
    let hh = m / 3600;
    let r = m % 3600;
    let mi = r / 60;
    let se = m % 60;
    vstd::arithmetic::div_mod::lemma_fundamental_div_mod(m, 3600);
    vstd::arithmetic::div_mod::lemma_fundamental_div_mod(r, 60);
    vstd::arithmetic::div_mod::lemma_mod_mod(m, 60, 60);
    assert(r % 60 == se);
    assert(m == 3600 * hh + 60 * mi + se);
    assert(0 <= hh <= m);
    assert(0 <= mi < 60);
    assert(0 <= se < 60);
    let h = sign * hh;
    let mm = sign * mi;
    let ss = sign * se;
    assert(h * 3600 + mm * 60 + ss == t);
    lemma_pad2_reads_back(h);
    lemma_pad2_reads_back(mm);
    lemma_pad2_reads_back(ss);
    lemma_split_three(pad2(h), pad2(mm), pad2(ss), ':');
    assert(offset_text(t) == pad2(h) + seq![':'] + pad2(mm) + seq![':'] + pad2(ss));
}

} // verus!
