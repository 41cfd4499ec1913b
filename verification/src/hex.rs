//! Big-endian hexadecimal digit strings and their denoted values, as they
//! appear in the address column of a process memory-map listing.

use vstd::prelude::*;

verus! {

/// Whether a byte is an ASCII hexadecimal digit.
pub open spec fn is_hex_digit(b: u8) -> bool {
    (48 <= b <= 57) || (97 <= b <= 102) || (65 <= b <= 70)
}

/// The value of one hexadecimal digit.
pub open spec fn hex_digit_value(b: u8) -> int
    recommends
        is_hex_digit(b),
{
    if 48 <= b <= 57 {
        b - 48
    } else if 97 <= b <= 102 {
        b - 87
    } else {
        b - 55
    }
}

/// Whether every byte of the string is a hexadecimal digit.
pub open spec fn all_hex(s: Seq<u8>) -> bool {
    forall|i: int| 0 <= i < s.len() ==> is_hex_digit(#[trigger] s[i])
}

/// The value a big-endian hexadecimal digit string denotes.
pub open spec fn hex_value(s: Seq<u8>) -> int
    decreases s.len(),
{
    if s.len() == 0 {
        0
    } else {
        16 * hex_value(s.drop_last()) + hex_digit_value(s.last())
    }
}

/// Sixteen to the n-th power.
pub open spec fn pow16(n: nat) -> int
    decreases n,
{
    if n == 0 {
        1
    } else {
        16 * pow16((n - 1) as nat)
    }
}

/// What parsing a hexadecimal string yields: its value exactly when the
/// string is nonempty, all digits, and the value fits an unsigned 64-bit
/// word; nothing otherwise.
pub open spec fn hex_option(s: Seq<u8>) -> Option<u64> {
    if s.len() > 0 && all_hex(s) && hex_value(s) <= u64::MAX {
        Some(hex_value(s) as u64)
    } else {
        None
    }
}

pub proof fn lemma_pow16_pos(n: nat)
    ensures
        pow16(n) >= 1,
    decreases n,
{
    if n > 0 {
        lemma_pow16_pos((n - 1) as nat);
    }
}

pub proof fn lemma_pow16_mono(a: nat, b: nat)
    requires
        a <= b,
    ensures
        pow16(a) <= pow16(b),
    decreases b,
{
    if a < b {
        lemma_pow16_mono(a, (b - 1) as nat);
        lemma_pow16_pos((b - 1) as nat);
    }
}

/// A string of hexadecimal digits denotes a value below sixteen to its
/// length.
pub proof fn lemma_hex_value_bound(s: Seq<u8>)
    requires
        all_hex(s),
    ensures
        0 <= hex_value(s) < pow16(s.len()),
    decreases s.len(),
{
    if s.len() > 0 {
        let d = s.drop_last();
        assert forall|i: int| 0 <= i < d.len() implies is_hex_digit(#[trigger] d[i]) by {
            assert(d[i] == s[i]);
        }
        lemma_hex_value_bound(d);
        assert(is_hex_digit(s.last()));
        assert(pow16(s.len()) == 16 * pow16((s.len() - 1) as nat));
    }
}

/// A string whose leading digit is significant denotes at least sixteen to
/// its length less one.
pub proof fn lemma_hex_value_lower(s: Seq<u8>)
    requires
        all_hex(s),
        s.len() > 0,
        hex_digit_value(s[0]) >= 1,
    ensures
        hex_value(s) >= pow16((s.len() - 1) as nat),
    decreases s.len(),
{
    if s.len() == 1 {
        assert(s.drop_last() =~= Seq::<u8>::empty());
        assert(hex_value(s.drop_last()) == 0);
        assert(s.last() == s[0]);
        assert(hex_value(s) == 16 * 0 + hex_digit_value(s[0]));
        assert(pow16(0) == 1);
    } else {
        let d = s.drop_last();
        assert forall|i: int| 0 <= i < d.len() implies is_hex_digit(#[trigger] d[i]) by {
            assert(d[i] == s[i]);
        }
        assert(d[0] == s[0]);
        lemma_hex_value_lower(d);
        assert(is_hex_digit(s.last()));
        assert(hex_digit_value(s.last()) >= 0);
        assert(hex_value(s) == 16 * hex_value(d) + hex_digit_value(s.last()));
        assert(pow16((s.len() - 1) as nat) == 16 * pow16((s.len() - 2) as nat));
    }
}

/// A leading zero does not change the denoted value.
pub proof fn lemma_hex_leading_zero(s: Seq<u8>)
    requires
        s.len() > 0,
        hex_digit_value(s[0]) == 0,
    ensures
        hex_value(s) == hex_value(s.drop_first()),
    decreases s.len(),
{
    if s.len() == 1 {
        assert(s.drop_last() =~= Seq::<u8>::empty());
        assert(hex_value(s.drop_last()) == 0);
        assert(s.last() == s[0]);
        assert(hex_value(s) == 16 * 0 + hex_digit_value(s[0]));
        assert(s.drop_first() =~= Seq::<u8>::empty());
        assert(hex_value(s.drop_first()) == 0);
    } else {
        let d = s.drop_last();
        assert(d[0] == s[0]);
        lemma_hex_leading_zero(d);
        assert(d.drop_first() =~= s.drop_first().drop_last());
        assert(s.last() == s.drop_first().last());
        assert(hex_value(s) == 16 * hex_value(d) + hex_digit_value(s.last()));
        assert(s.drop_first().len() > 0);
        assert(hex_value(s.drop_first()) == 16 * hex_value(s.drop_first().drop_last())
            + hex_digit_value(s.drop_first().last()));
    }
}

/// Parse the big-endian hexadecimal digits in `v[from..to]`. Returns the
/// denoted value exactly when the range is nonempty, holds hexadecimal
/// digits only, and the value fits an unsigned 64-bit word.
pub fn parse_hex_range(v: &Vec<u8>, from: usize, to: usize) -> (r: Option<u64>)
    requires
        from <= to <= v@.len(),
    ensures
        r == hex_option(v@.subrange(from as int, to as int)),
{
    let ghost s = v@.subrange(from as int, to as int);
    if from == to {
        return None;
    }
    let mut i: usize = from;
    while i < to
        invariant
            from <= i <= to <= v@.len(),
            s == v@.subrange(from as int, to as int),
            forall|j: int| 0 <= j < i - from ==> is_hex_digit(#[trigger] s[j]),
        decreases to - i,
    {
        let b = v[i];
        let hex = (48 <= b && b <= 57) || (97 <= b && b <= 102) || (65 <= b && b <= 70);
        proof {
            assert(s[i - from] == v@[i as int]);
        }
        if !hex {
            proof {
                assert(!is_hex_digit(s[i - from]));
                assert(!all_hex(s));
            }
            return None;
        }
        i = i + 1;
    }
    proof {
        assert(all_hex(s));
    }
    proof {
        assert(s.skip(0) =~= s);
    }
    let mut z: usize = from;
    while z < to && v[z] == 48
        invariant
            from <= z <= to <= v@.len(),
            s == v@.subrange(from as int, to as int),
            all_hex(s),
            hex_value(s.skip(z - from)) == hex_value(s),
        decreases to - z,
    {
        proof {
            let t = s.skip(z - from);
            assert(t[0] == v@[z as int]);
            assert(hex_digit_value(t[0]) == 0);
            lemma_hex_leading_zero(t);
            assert(t.drop_first() =~= s.skip(z + 1 - from));
        }
        z = z + 1;
    }
    let ghost t = s.skip(z - from);
    proof {
        assert forall|j: int| 0 <= j < t.len() implies is_hex_digit(#[trigger] t[j]) by {
            assert(t[j] == s[j + z - from]);
        }
    }
    if z == to {
        proof {
            assert(t =~= Seq::<u8>::empty());
            assert(hex_value(s) == 0);
        }
        return Some(0);
    }
    proof {
        assert(t[0] == v@[z as int]);
        assert(v@[z as int] != 48 && is_hex_digit(t[0]));
        assert(hex_digit_value(t[0]) >= 1);
    }
    if to - z > 16 {
        proof {
            lemma_hex_value_lower(t);
            lemma_pow16_mono(16, (t.len() - 1) as nat);
            assert(pow16(16) == 0x1_0000_0000_0000_0000) by {
                reveal_with_fuel(pow16, 17);
            }
            assert(hex_value(s) > u64::MAX);
        }
        return None;
    }
    let mut value: u64 = 0;
    let mut j: usize = z;
    while j < to
        invariant
            z <= j <= to <= v@.len(),
            from <= z,
            to - z <= 16,
            s == v@.subrange(from as int, to as int),
            t == s.skip(z - from),
            all_hex(t),
            hex_value(s) == hex_value(t),
            value == hex_value(t.take(j - z)),
        decreases to - j,
    {
        let b = v[j];
        proof {
            assert(t[j - z] == v@[j as int]);
            assert(is_hex_digit(t[j - z]));
        }
        let d: u64 = if b <= 57 {
            (b - 48) as u64
        } else if b >= 97 {
            (b - 87) as u64
        } else {
            (b - 55) as u64
        };
        proof {
            assert(d == hex_digit_value(t[j - z]));
            let pre = t.take(j - z);
            assert forall|q: int| 0 <= q < pre.len() implies is_hex_digit(#[trigger] pre[q]) by {
                assert(pre[q] == t[q]);
            }
            lemma_hex_value_bound(pre);
            lemma_pow16_mono(pre.len(), 15);
            assert(pow16(15) == 0x1000_0000_0000_0000) by {
                reveal_with_fuel(pow16, 16);
            }
            assert(value < 0x1000_0000_0000_0000);
        }
        value = value * 16 + d;
        proof {
            assert(t.take(j + 1 - z).drop_last() =~= t.take(j - z));
            assert(t.take(j + 1 - z).last() == t[j - z]);
        }
        j = j + 1;
    }
    proof {
        assert(t.take(to - z) =~= t);
        assert(hex_value(s) <= u64::MAX);
        assert(value == hex_value(s));
    }
    Some(value)
}

} // verus!
