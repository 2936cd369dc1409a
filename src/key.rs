use vstd::prelude::*;
use vstd::string::StringSliceAdditionalSpecFns;

verus! {

/// Number of bytes in a key given on the command line.
pub const KEY_LEN: usize = 16;

/// Message for a key whose digits, spaces left out, are not `2 * KEY_LEN` in number.
pub const KEY_LENGTH_ERROR: &'static str = "Hex string must be 32 characters long";

/// Message for a key with a character that is not a hexadecimal digit.
pub const KEY_DIGIT_ERROR: &'static str = "Invalid hex character";

/// `b` with every space left out.
pub open spec fn without_spaces(b: Seq<u8>) -> Seq<u8>
    decreases b.len(),
{
    if b.len() == 0 {
        Seq::empty()
    } else if b.last() == 0x20u8 {
        without_spaces(b.drop_last())
    } else {
        without_spaces(b.drop_last()).push(b.last())
    }
}

/// The value of the hexadecimal digit `c`, of either case.
pub open spec fn hex_value(c: u8) -> Option<u8> {
    if 0x30 <= c <= 0x39 {
        Some((c - 0x30) as u8)
    } else if 0x61 <= c <= 0x66 {
        Some((c - 0x61 + 10) as u8)
    } else if 0x41 <= c <= 0x46 {
        Some((c - 0x41 + 10) as u8)
    } else {
        None
    }
}

/// Every byte of `d` is a hexadecimal digit.
pub open spec fn all_hex(d: Seq<u8>) -> bool {
    forall|k: int| 0 <= k < d.len() ==> (#[trigger] hex_value(d[k])) is Some
}

/// The bytes that the digit pairs of `d` spell, high digit first.
pub open spec fn hex_decoded(d: Seq<u8>) -> Seq<u8> {
    Seq::new(
        d.len() / 2,
        |k: int| (hex_value(d[2 * k])->0 * 16 + hex_value(d[2 * k + 1])->0) as u8,
    )
}

/// Decodes one hexadecimal digit.
pub fn hex_digit(c: u8) -> (r: Option<u8>)
    ensures
        r == hex_value(c),
{
    if 0x30 <= c && c <= 0x39 {
        Some(c - 0x30)
    } else if 0x61 <= c && c <= 0x66 {
        Some(c - 0x61 + 10)
    } else if 0x41 <= c && c <= 0x46 {
        Some(c - 0x41 + 10)
    } else {
        None
    }
}

/// Decodes a key written as 32 hexadecimal digits; spaces anywhere are ignored.
pub fn hex_to_bytes(hex: &str) -> (r: Result<[u8; 16], &'static str>)
    ensures
        without_spaces(hex.spec_bytes()).len() != 32 ==> r == Err::<[u8; 16], &'static str>(
            KEY_LENGTH_ERROR,
        ),
        without_spaces(hex.spec_bytes()).len() == 32 && !all_hex(without_spaces(hex.spec_bytes()))
            ==> r == Err::<[u8; 16], &'static str>(KEY_DIGIT_ERROR),
        without_spaces(hex.spec_bytes()).len() == 32 && all_hex(without_spaces(hex.spec_bytes()))
            ==> r is Ok && r->Ok_0@ == hex_decoded(without_spaces(hex.spec_bytes())),
{
    let raw = hex.as_bytes();
    let ghost b = raw@;
    let mut digits: Vec<u8> = Vec::new();
    let mut i: usize = 0;
    while i < raw.len()
        invariant
            0 <= i <= b.len(),
            b == raw@,
            digits@ == without_spaces(b.subrange(0, i as int)),
        decreases b.len() - i,
    {
        proof {
            assert(b.subrange(0, i + 1).drop_last() =~= b.subrange(0, i as int));
        }
        if raw[i] != 0x20u8 {
            digits.push(raw[i]);
        }
        i = i + 1;
    }
    proof {
        assert(b.subrange(0, b.len() as int) =~= b);
    }
    if digits.len() != 2 * KEY_LEN {
        return Err(KEY_LENGTH_ERROR);
    }
    let mut bytes = [0u8; 16];
    let mut k: usize = 0;
    while k < KEY_LEN
        invariant
            0 <= k <= 16,
            digits@.len() == 32,
            digits@ == without_spaces(b),
            b == hex.spec_bytes(),
            bytes@.len() == 16,
            forall|x: int| 0 <= x < 2 * k ==> (#[trigger] hex_value(digits@[x])) is Some,
            forall|x: int| 0 <= x < k ==> bytes@[x] == hex_decoded(digits@)[x],
        decreases 16 - k,
    {
        let high = hex_digit(digits[2 * k]);
        let low = hex_digit(digits[2 * k + 1]);
        match (high, low) {
            (Some(h), Some(l)) => {
                bytes[k] = h * 16 + l;
            },
            _ => {
                return Err(KEY_DIGIT_ERROR);
            },
        }
        k = k + 1;
    }
    assert(bytes@ =~= hex_decoded(digits@));
    Ok(bytes)
}

} // verus!
