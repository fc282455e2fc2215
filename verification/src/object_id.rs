//! Object-id codec: converts the opaque path string of a request into the
//! store-native identifier, rejecting malformed input before it can reach the
//! store. An identifier is 12 bytes, written as 24 hexadecimal digits, and is
//! carried here as one integer below `OBJECT_ID_LIMIT`.

use crate::errors::Error;
use vstd::prelude::*;
use vstd::string::StrSliceExecFns;
use vstd::string::StringExecFns;

verus! {

/// One more than the largest value an object id can hold: ids are 12 bytes,
/// so their values lie below `16^24`.
pub const OBJECT_ID_LIMIT: u128 = 0x1000000000000000000000000;

/// Number of hexadecimal digits in the textual form of an object id.
pub const OBJECT_ID_HEX_LEN: usize = 24;

/// A store-native resource identifier.
#[derive(Clone, Copy, PartialEq, Eq, Structural)]
pub struct ObjectId {
    pub value: u128,
}

impl ObjectId {
    /// An id is well-formed when its value fits in 12 bytes.
    pub open spec fn wf(&self) -> bool {
        self.value < OBJECT_ID_LIMIT
    }
}

/// Whether `c` is a hexadecimal digit, in either case.
pub open spec fn is_hex_digit(c: char) -> bool {
    (48 <= c as int && c as int <= 57)  // '0' ..= '9'
    || (97 <= c as int && c as int <= 102)  // 'a' ..= 'f'
    || (65 <= c as int && c as int <= 70)  // 'A' ..= 'F'

}

/// The value of the hexadecimal digit `c`; meaningful when `is_hex_digit(c)`.
pub open spec fn hex_digit_value(c: char) -> int
    recommends
        is_hex_digit(c),
{
    if 48 <= c as int && c as int <= 57 {
        c as int - 48
    } else if 97 <= c as int && c as int <= 102 {
        c as int - 87
    } else {
        c as int - 55
    }
}

/// The value of `s` read as a big-endian hexadecimal numeral; meaningful when
/// every character is a hexadecimal digit.
pub open spec fn hex_value(s: Seq<char>) -> int
    decreases s.len(),
{
    if s.len() == 0 {
        0
    } else {
        hex_value(s.drop_last()) * 16 + hex_digit_value(s.last())
    }
}

/// Whether every character of `s` is a hexadecimal digit.
pub open spec fn all_hex_digits(s: Seq<char>) -> bool {
    forall|i: int| 0 <= i < s.len() ==> is_hex_digit(#[trigger] s[i])
}

/// Whether `s` is a well-formed textual object id: exactly
/// `OBJECT_ID_HEX_LEN` hexadecimal digits.
pub open spec fn valid_object_id_string(s: Seq<char>) -> bool {
    s.len() == OBJECT_ID_HEX_LEN && all_hex_digits(s)
}

/// `16^n`.
pub open spec fn pow16(n: nat) -> int
    decreases n,
{
    if n == 0 {
        1
    } else {
        16 * pow16((n - 1) as nat)
    }
}

/// Powers of 16 are positive.
proof fn lemma_pow16_pos(n: nat)
    ensures
        pow16(n) >= 1,
    decreases n,
{
    if n > 0 {
        lemma_pow16_pos((n - 1) as nat);
    }
}

/// Powers of 16 grow with the exponent.
proof fn lemma_pow16_le(a: nat, b: nat)
    requires
        a <= b,
    ensures
        pow16(a) <= pow16(b),
    decreases b,
{
    if a < b {
        lemma_pow16_le(a, (b - 1) as nat);
        lemma_pow16_pos((b - 1) as nat);
    }
}

/// Unfolded, `16^OBJECT_ID_HEX_LEN` is exactly `OBJECT_ID_LIMIT`.
proof fn lemma_pow16_limit()
    ensures
        pow16(OBJECT_ID_HEX_LEN as nat) == OBJECT_ID_LIMIT as int,
{
    reveal_with_fuel(pow16, 25);
}

/// A hexadecimal numeral of `n` digits denotes a value in `[0, 16^n)`.
proof fn lemma_hex_value_bounds(s: Seq<char>)
    requires
        all_hex_digits(s),
    ensures
        0 <= hex_value(s) < pow16(s.len()),
    decreases s.len(),
{
    if s.len() > 0 {
        assert(all_hex_digits(s.drop_last()));
        lemma_hex_value_bounds(s.drop_last());
    }
}

/// The value of a single hexadecimal digit character, or `None` where `c` is
/// no such digit.
fn hex_digit_of(c: char) -> (r: Option<u8>)
    ensures
        r is Some <==> is_hex_digit(c),
        r matches Some(v) ==> v as int == hex_digit_value(c),
{
    let u = c as u32;
    if 48 <= u && u <= 57 {
        Some((u - 48) as u8)
    } else if 97 <= u && u <= 102 {
        Some((u - 87) as u8)
    } else if 65 <= u && u <= 70 {
        Some((u - 55) as u8)
    } else {
        None
    }
}

/// Converts the opaque path string `id` into the store-native identifier.
/// Malformed ids fail with a validation error and never reach the store.
pub fn to_object_id(id: &str) -> (r: Result<ObjectId, Error>)
    ensures
        valid_object_id_string(id@) ==> (r matches Ok(oid) && oid.value as int == hex_value(id@)
            && oid.wf()),
        !valid_object_id_string(id@) ==> (r matches Err(e) && e matches Error::ValidationError(m)
            && m@ == "invalid object id"@),
{
    let len = id.unicode_len();
    if len != OBJECT_ID_HEX_LEN {
        return Err(Error::ValidationError(String::from_str("invalid object id")));
    }
    let mut i: usize = 0;
    let mut acc: u128 = 0;
    while i < OBJECT_ID_HEX_LEN
        invariant
            id@.len() == OBJECT_ID_HEX_LEN,
            i <= OBJECT_ID_HEX_LEN,
            all_hex_digits(id@.take(i as int)),
            acc as int == hex_value(id@.take(i as int)),
        decreases OBJECT_ID_HEX_LEN - i,
    {
        let c = id.get_char(i);
        match hex_digit_of(c) {
            None => {
                proof {
                    assert(!is_hex_digit(id@[i as int]));
                }
                return Err(Error::ValidationError(String::from_str("invalid object id")));
            },
            Some(v) => {
                proof {
                    let ghost n1: nat = i as nat + 1;
                    lemma_hex_value_bounds(id@.take(i as int));
                    lemma_pow16_le(n1, OBJECT_ID_HEX_LEN as nat);
                    lemma_pow16_limit();
                    assert((acc as int) * 16 + (v as int) < pow16(n1));
                }
                acc = acc * 16 + (v as u128);
                proof {
                    assert(id@.take(i + 1).drop_last() =~= id@.take(i as int));
                    assert(id@.take(i + 1).last() == id@[i as int]);
                }
                i = i + 1;
            },
        }
    }
    proof {
        assert(id@.take(OBJECT_ID_HEX_LEN as int) =~= id@);
        lemma_hex_value_bounds(id@);
        lemma_pow16_limit();
    }
    Ok(ObjectId { value: acc })
}

} // verus!
