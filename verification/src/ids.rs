//! Transaction and user identifiers.
//!
//! Identifiers are 128-bit values.  Their canonical text form — 32
//! hexadecimal digits in groups of 8, 4, 4, 4 and 12, separated by
//! hyphens — is parsed and printed here, with the parsed value proved
//! to be exactly the hexadecimal reading of the digits.

use vstd::prelude::*;
use vstd::string::{StrSliceExecFns, StringExecFns};

verus! {

/// Relies on `uuid::Uuid::new_v4` (through `as_u128`): a fresh random
/// version-4 id.  Nothing is promised of the value.
#[verifier::external_body]
pub(crate) fn new_tx_id() -> u128 {
    uuid::Uuid::new_v4().as_u128()
}

/// The four positions at which the canonical text carries a hyphen.
pub open spec fn is_hyphen_pos(i: int) -> bool {
    i == 8 || i == 13 || i == 18 || i == 23
}

/// A hexadecimal digit, either case.
pub open spec fn is_hex_digit(c: char) -> bool {
    ('0' <= c && c <= '9') || ('a' <= c && c <= 'f') || ('A' <= c && c <= 'F')
}

/// The value of one hexadecimal digit.
pub open spec fn hex_digit_value(c: char) -> int {
    if '0' <= c && c <= '9' {
        c as int - '0' as int
    } else if 'a' <= c && c <= 'f' {
        c as int - 'a' as int + 10
    } else {
        c as int - 'A' as int + 10
    }
}

/// The canonical identifier text: 36 characters, hyphens at the four
/// fixed positions, hexadecimal digits everywhere else.
pub open spec fn is_uuid_text(s: Seq<char>) -> bool {
    &&& s.len() == 36
    &&& forall|i: int| 0 <= i < 36 && is_hyphen_pos(i) ==> #[trigger] s[i] == '-'
    &&& forall|i: int| 0 <= i < 36 && !is_hyphen_pos(i) ==> is_hex_digit(#[trigger] s[i])
}

/// The value of the hexadecimal digits of `s`, most significant first,
/// hyphens skipped.
pub open spec fn uuid_text_value(s: Seq<char>) -> int
    decreases s.len(),
{
    if s.len() == 0 {
        0
    } else if s.last() == '-' {
        uuid_text_value(s.drop_last())
    } else {
        uuid_text_value(s.drop_last()) * 16 + hex_digit_value(s.last())
    }
}

/// Sixteen to the `k`.
pub open spec fn pow16(k: nat) -> int
    decreases k,
{
    if k == 0 {
        1
    } else {
        16 * pow16((k - 1) as nat)
    }
}

/// How many of the four hyphen positions lie before position `i`.
pub open spec fn hyphens_before(i: int) -> int {
    (if i > 8 {
        1int
    } else {
        0int
    }) + (if i > 13 {
        1int
    } else {
        0int
    }) + (if i > 18 {
        1int
    } else {
        0int
    }) + (if i > 23 {
        1int
    } else {
        0int
    })
}

proof fn lemma_pow16_32()
    ensures
        pow16(32) == 0x100000000000000000000000000000000,
{
    reveal_with_fuel(pow16, 33);
}

proof fn lemma_pow16_pos(k: nat)
    ensures
        pow16(k) >= 1,
    decreases k,
{
    if k > 0 {
        lemma_pow16_pos((k - 1) as nat);
    }
}

proof fn lemma_pow16_mono(a: nat, b: nat)
    requires
        a <= b,
    ensures
        pow16(a) <= pow16(b),
    decreases b,
{
    if a < b {
        lemma_pow16_mono(a, (b - 1) as nat);
        lemma_pow16_pos((b - 1) as nat);
    }
}

/// The canonical text describes only ASCII characters.
proof fn lemma_uuid_text_ascii(s: Seq<char>)
    requires
        is_uuid_text(s),
    ensures
        vstd::utf8::is_ascii_chars(s),
{
    assert forall|i: int| 0 <= i < s.len() implies '\0' <= #[trigger] s[i] <= '\u{7f}' by {
        if is_hyphen_pos(i) {
            assert(s[i] == '-');
        } else {
            assert(is_hex_digit(s[i]));
        }
    }
}

/// Parses the canonical hyphenated text of an identifier.  Returns the
/// value of its 32 hexadecimal digits exactly when the text has the
/// canonical shape, and nothing otherwise.
pub fn parse_uuid_text(s: &str) -> (r: Option<u128>)
    ensures
        match r {
            Some(v) => is_uuid_text(s@) && v == uuid_text_value(s@),
            None => !is_uuid_text(s@),
        },
{
    if !s.is_ascii() {
        proof {
            if is_uuid_text(s@) {
                lemma_uuid_text_ascii(s@);
            }
        }
        return None;
    }
    let n: usize = s.unicode_len();
    if n != 36 {
        return None;
    }
    let mut acc: u128 = 0;
    let mut i: usize = 0;
    proof {
        assert(s@.subrange(0, 0) =~= Seq::<char>::empty());
        lemma_pow16_32();
    }
    while i < 36
        invariant
            i <= 36,
            s@.len() == 36,
            s.is_ascii(),
            forall|j: int| 0 <= j < i && is_hyphen_pos(j) ==> #[trigger] s@[j] == '-',
            forall|j: int| 0 <= j < i && !is_hyphen_pos(j) ==> is_hex_digit(#[trigger] s@[j]),
            acc == uuid_text_value(s@.subrange(0, i as int)),
            acc < pow16((i - hyphens_before(i as int)) as nat),
            pow16(32) == 0x100000000000000000000000000000000,
        decreases 36 - i,
    {
        let ghost pre = s@.subrange(0, i as int);
        let ghost dc = (i - hyphens_before(i as int)) as nat;
        let b: u8 = s.get_ascii(i);
        proof {
            assert('\0' <= s@[i as int] <= '\u{7f}');
            assert(s@.subrange(0, i as int + 1).drop_last() =~= pre);
            assert(s@.subrange(0, i as int + 1).last() == s@[i as int]);
        }
        if i == 8 || i == 13 || i == 18 || i == 23 {
            if b != 45 {
                proof {
                    assert(s@[i as int] != '-');
                }
                return None;
            }
            proof {
                assert(s@[i as int] == '-');
            }
        } else {
            let v: u8 = if 48 <= b && b <= 57 {
                b - 48
            } else if 97 <= b && b <= 102 {
                b - 97 + 10
            } else if 65 <= b && b <= 70 {
                b - 65 + 10
            } else {
                proof {
                    assert(!is_hex_digit(s@[i as int]));
                }
                return None;
            };
            proof {
                assert(is_hex_digit(s@[i as int]));
                assert(hex_digit_value(s@[i as int]) == v as int);
                assert(dc <= 31);
                lemma_pow16_mono((dc + 1) as nat, 32);
                assert(pow16((dc + 1) as nat) == 16 * pow16(dc));
                assert(acc * 16 + 15 < pow16((dc + 1) as nat));
            }
            acc = acc * 16 + v as u128;
        }
        i = i + 1;
        proof {
            assert(hyphens_before(i as int) <= hyphens_before(i as int));
        }
    }
    proof {
        assert(s@.subrange(0, 36) =~= s@);
    }
    Some(acc)
}

/// The character of one hexadecimal digit, lower case.
pub open spec fn hex_char_of(d: int) -> char {
    if d == 0 {
        '0'
    } else if d == 1 {
        '1'
    } else if d == 2 {
        '2'
    } else if d == 3 {
        '3'
    } else if d == 4 {
        '4'
    } else if d == 5 {
        '5'
    } else if d == 6 {
        '6'
    } else if d == 7 {
        '7'
    } else if d == 8 {
        '8'
    } else if d == 9 {
        '9'
    } else if d == 10 {
        'a'
    } else if d == 11 {
        'b'
    } else if d == 12 {
        'c'
    } else if d == 13 {
        'd'
    } else if d == 14 {
        'e'
    } else {
        'f'
    }
}

proof fn lemma_hex_char_roundtrip(d: int)
    requires
        0 <= d < 16,
    ensures
        is_hex_digit(hex_char_of(d)),
        hex_digit_value(hex_char_of(d)) == d,
{
}

/// Appends the character of one hexadecimal digit.
fn push_hex_char(out: &mut String, d: u8)
    requires
        d < 16,
    ensures
        final(out)@ == old(out)@.push(hex_char_of(d as int)),
{
    let ghost pre = out@;
    if d == 0 {
        out.append("0");
        proof {
            reveal_strlit("0");
            assert(final(out)@ =~= pre.push('0'));
        }
    } else if d == 1 {
        out.append("1");
        proof {
            reveal_strlit("1");
            assert(final(out)@ =~= pre.push('1'));
        }
    } else if d == 2 {
        out.append("2");
        proof {
            reveal_strlit("2");
            assert(final(out)@ =~= pre.push('2'));
        }
    } else if d == 3 {
        out.append("3");
        proof {
            reveal_strlit("3");
            assert(final(out)@ =~= pre.push('3'));
        }
    } else if d == 4 {
        out.append("4");
        proof {
            reveal_strlit("4");
            assert(final(out)@ =~= pre.push('4'));
        }
    } else if d == 5 {
        out.append("5");
        proof {
            reveal_strlit("5");
            assert(final(out)@ =~= pre.push('5'));
        }
    } else if d == 6 {
        out.append("6");
        proof {
            reveal_strlit("6");
            assert(final(out)@ =~= pre.push('6'));
        }
    } else if d == 7 {
        out.append("7");
        proof {
            reveal_strlit("7");
            assert(final(out)@ =~= pre.push('7'));
        }
    } else if d == 8 {
        out.append("8");
        proof {
            reveal_strlit("8");
            assert(final(out)@ =~= pre.push('8'));
        }
    } else if d == 9 {
        out.append("9");
        proof {
            reveal_strlit("9");
            assert(final(out)@ =~= pre.push('9'));
        }
    } else if d == 10 {
        out.append("a");
        proof {
            reveal_strlit("a");
            assert(final(out)@ =~= pre.push('a'));
        }
    } else if d == 11 {
        out.append("b");
        proof {
            reveal_strlit("b");
            assert(final(out)@ =~= pre.push('b'));
        }
    } else if d == 12 {
        out.append("c");
        proof {
            reveal_strlit("c");
            assert(final(out)@ =~= pre.push('c'));
        }
    } else if d == 13 {
        out.append("d");
        proof {
            reveal_strlit("d");
            assert(final(out)@ =~= pre.push('d'));
        }
    } else if d == 14 {
        out.append("e");
        proof {
            reveal_strlit("e");
            assert(final(out)@ =~= pre.push('e'));
        }
    } else {
        out.append("f");
        proof {
            reveal_strlit("f");
            assert(final(out)@ =~= pre.push('f'));
        }
    }
}

/// The value of a least-significant-first digit sequence.
spec fn lsb_value(ds: Seq<u8>) -> int
    decreases ds.len(),
{
    if ds.len() == 0 {
        0
    } else {
        lsb_value(ds.drop_last()) + ds.last() * pow16((ds.len() - 1) as nat)
    }
}

proof fn lemma_lsb_value_bound(ds: Seq<u8>)
    requires
        forall|i: int| 0 <= i < ds.len() ==> #[trigger] ds[i] < 16,
    ensures
        0 <= lsb_value(ds) < pow16(ds.len() as nat),
    decreases ds.len(),
{
    if ds.len() == 0 {
        assert(pow16(0) == 1);
    } else {
        lemma_lsb_value_bound(ds.drop_last());
        lemma_pow16_pos((ds.len() - 1) as nat);
        assert(ds.last() < 16);
        assert(ds.last() * pow16((ds.len() - 1) as nat) <= 15 * pow16((ds.len() - 1) as nat))
            by (nonlinear_arith)
            requires
                ds.last() < 16,
                pow16((ds.len() - 1) as nat) >= 1,
        ;
        assert(ds.last() * pow16((ds.len() - 1) as nat) >= 0) by (nonlinear_arith)
            requires
                ds.last() >= 0,
                pow16((ds.len() - 1) as nat) >= 1,
        ;
        assert(pow16(ds.len() as nat) == 16 * pow16((ds.len() - 1) as nat));
    }
}

/// Prints the canonical hyphenated text of an identifier: 32 lower-case
/// hexadecimal digits in groups of 8, 4, 4, 4 and 12, whose value is
/// exactly `v`.
#[verifier::rlimit(100)]
pub fn uuid_text_of(v: u128) -> (r: String)
    ensures
        is_uuid_text(r@),
        uuid_text_value(r@) == v,
{
    // Extract the 32 hexadecimal digits, least significant first.
    let mut digits: Vec<u8> = Vec::new();
    let mut tmp: u128 = v;
    let mut k: usize = 0;
    proof {
        assert(digits@ =~= Seq::<u8>::empty());
        lemma_pow16_32();
    }
    while k < 32
        invariant
            k <= 32,
            digits@.len() == k,
            forall|i: int| 0 <= i < digits@.len() ==> #[trigger] digits@[i] < 16,
            v == tmp * pow16(k as nat) + lsb_value(digits@),
        decreases 32 - k,
    {
        let ghost pre = digits@;
        let ghost tmp0 = tmp as int;
        let d: u8 = (tmp % 16) as u8;
        digits.push(d);
        tmp = tmp / 16;
        proof {
            assert(digits@.drop_last() =~= pre);
            assert(digits@.last() == d);
            assert(lsb_value(digits@) == lsb_value(pre) + d * pow16(k as nat));
            assert(tmp0 == 16 * (tmp as int) + d);
            assert(tmp0 * pow16(k as nat) == (tmp as int) * pow16((k + 1) as nat) + d * pow16(
                k as nat,
            )) by (nonlinear_arith)
                requires
                    tmp0 == 16 * (tmp as int) + d,
                    pow16((k + 1) as nat) == 16 * pow16(k as nat),
            ;
        }
        k = k + 1;
    }
    proof {
        lemma_lsb_value_bound(digits@);
        assert(tmp * pow16(32) >= pow16(32) || tmp == 0) by (nonlinear_arith)
            requires
                tmp >= 0,
                pow16(32) >= 1,
        ;
        assert(tmp == 0);
        assert(v == lsb_value(digits@));
        assert(digits@.subrange(0, 32) =~= digits@);
    }
    // Emit most significant first, with the four hyphens.
    let mut out = String::new();
    let mut e: usize = 0;
    proof {
        assert(out@ =~= Seq::<char>::empty());
    }
    while e < 32
        invariant
            e <= 32,
            digits@.len() == 32,
            forall|i: int| 0 <= i < digits@.len() ==> #[trigger] digits@[i] < 16,
            out@.len() == e + hyphens_emitted(e as int),
            forall|j: int|
                0 <= j < out@.len() && is_hyphen_pos(j) ==> #[trigger] out@[j] == '-',
            forall|j: int|
                0 <= j < out@.len() && !is_hyphen_pos(j) ==> is_hex_digit(#[trigger] out@[j]),
            uuid_text_value(out@) * pow16((32 - e) as nat) + lsb_value(
                digits@.subrange(0, 32 - e as int),
            ) == v,
        decreases 32 - e,
    {
        let ghost acc0 = uuid_text_value(out@);
        if e == 8 || e == 12 || e == 16 || e == 20 {
            let ghost pre = out@;
            out.append("-");
            proof {
                reveal_strlit("-");
                assert(out@ =~= pre.push('-'));
                assert(out@.drop_last() =~= pre);
                assert(uuid_text_value(out@) == acc0);
            }
        }
        let d: u8 = digits[31 - e];
        let ghost pre2 = out@;
        push_hex_char(&mut out, d);
        proof {
            assert(out@.drop_last() =~= pre2);
            assert(out@.last() == hex_char_of(d as int));
            lemma_hex_char_roundtrip(d as int);
            assert(uuid_text_value(out@) == acc0 * 16 + d);
            let m = (32 - e) as nat;
            assert(digits@.subrange(0, m as int).drop_last() =~= digits@.subrange(
                0,
                m as int - 1,
            ));
            assert(digits@.subrange(0, m as int).last() == digits@[m as int - 1]);
            assert(digits@[m as int - 1] == d);
            assert(lsb_value(digits@.subrange(0, m as int)) == lsb_value(
                digits@.subrange(0, m as int - 1),
            ) + d * pow16((m - 1) as nat));
            assert((acc0 * 16 + d) * pow16((m - 1) as nat) == acc0 * pow16(m) + d * pow16(
                (m - 1) as nat,
            )) by (nonlinear_arith)
                requires
                    pow16(m) == 16 * pow16((m - 1) as nat),
            ;
        }
        e = e + 1;
    }
    proof {
        assert(digits@.subrange(0, 0) =~= Seq::<u8>::empty());
        assert(lsb_value(digits@.subrange(0, 0)) == 0);
        assert(pow16(0) == 1);
        assert(uuid_text_value(out@) * pow16(0) == uuid_text_value(out@));
        assert(uuid_text_value(out@) == v);
        assert(out@.len() == 36);
    }
    out
}

/// How many hyphens have been emitted before the `e`-th digit.
spec fn hyphens_emitted(e: int) -> int {
    (if e > 8 {
        1int
    } else {
        0int
    }) + (if e > 12 {
        1int
    } else {
        0int
    }) + (if e > 16 {
        1int
    } else {
        0int
    }) + (if e > 20 {
        1int
    } else {
        0int
    })
}

} // verus!
