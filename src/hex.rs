//! Hexadecimal text, as ledger scripts are written down.
use vstd::prelude::*;
use vstd::string::StringSliceAdditionalSpecFns;

verus! {

/// The script of a native-to-token constant-product pool, in hexadecimal.
pub const N2T_POOL_ERGO_TREE_BASE16: &'static str = "1999030f0400040204020404040405feffffffffffffffff0105feffffffffffffffff01050004d00f040004000406050005000580dac409d819d601b2a5730000d602e4c6a70404d603db63087201d604db6308a7d605b27203730100d606b27204730200d607b27203730300d608b27204730400d6099973058c720602d60a999973068c7205027209d60bc17201d60cc1a7d60d99720b720cd60e91720d7307d60f8c720802d6107e720f06d6117e720d06d612998c720702720fd6137e720c06d6147308d6157e721206d6167e720a06d6177e720906d6189c72117217d6199c72157217d1ededededededed93c27201c2a793e4c672010404720293b27203730900b27204730a00938c7205018c720601938c7207018c72080193b17203730b9593720a730c95720e929c9c721072117e7202069c7ef07212069a9c72137e7214067e9c720d7e72020506929c9c721372157e7202069c7ef0720d069a9c72107e7214067e9c72127e7202050695ed720e917212730d907216a19d721872139d72197210ed9272189c721672139272199c7216721091720b730e";

/// The value of one hexadecimal digit, either case.
pub open spec fn hex_digit(c: u8) -> Option<u8> {
    if 48 <= c <= 57 {
        Some((c - 48) as u8)
    } else if 97 <= c <= 102 {
        Some((c - 87) as u8)
    } else if 65 <= c <= 70 {
        Some((c - 55) as u8)
    } else {
        None
    }
}

/// The bytes that hexadecimal text `s` writes: two digits per byte, high first.
pub open spec fn hex_bytes(s: Seq<u8>) -> Option<Seq<u8>> {
    if s.len() % 2 == 0 && forall|i: int| 0 <= i < s.len() ==> (#[trigger] hex_digit(s[i])) is Some {
        Some(
            Seq::new(
                (s.len() / 2) as nat,
                |i: int| (hex_digit(s[2 * i])->Some_0 * 16 + hex_digit(s[2 * i + 1])->Some_0) as u8,
            ),
        )
    } else {
        None
    }
}

fn digit_value(c: u8) -> (r: Option<u8>)
    ensures
        r == hex_digit(c),
{
    if 48 <= c && c <= 57 {
        Some(c - 48)
    } else if 97 <= c && c <= 102 {
        Some(c - 87)
    } else if 65 <= c && c <= 70 {
        Some(c - 55)
    } else {
        None
    }
}

/// Decodes hexadecimal text; `None` for an odd length or a character that is no digit.
pub fn hex_decode(s: &str) -> (r: Option<Vec<u8>>)
    ensures
        r matches Some(v) ==> hex_bytes(s.spec_bytes()) == Some(v@),
        r is None ==> hex_bytes(s.spec_bytes()) is None,
{
    let b = s.as_bytes();
    let ghost t = b@;
    if b.len() % 2 != 0 {
        return None;
    }
    let mut out: Vec<u8> = Vec::new();
    let mut i: usize = 0;
    while i < b.len() / 2
        invariant
            t == b@,
            t == s.spec_bytes(),
            t.len() % 2 == 0,
            i <= t.len() / 2,
            forall|j: int| 0 <= j < 2 * i ==> (#[trigger] hex_digit(t[j])) is Some,
            out@.len() == i,
            forall|k: int|
                0 <= k < i ==> #[trigger] out@[k] == (hex_digit(t[2 * k])->Some_0 * 16 + hex_digit(
                    t[2 * k + 1],
                )->Some_0) as u8,
        decreases t.len() / 2 - i,
    {
        let hi = match digit_value(b[2 * i]) {
            Some(v) => v,
            None => {
                assert(t == s.spec_bytes());
                assert(hex_digit(t[2 * i as int]) is None);
                assert(!(forall|j: int| 0 <= j < t.len() ==> (#[trigger] hex_digit(t[j])) is Some));
                return None;
            },
        };
        let lo = match digit_value(b[2 * i + 1]) {
            Some(v) => v,
            None => {
                assert(t == s.spec_bytes());
                assert(hex_digit(t[2 * i as int + 1]) is None);
                assert(!(forall|j: int| 0 <= j < t.len() ==> (#[trigger] hex_digit(t[j])) is Some));
                return None;
            },
        };
        out.push(hi * 16 + lo);
        i = i + 1;
    }
    assert(hex_bytes(t) == Some(out@)) by {
        assert(out@ =~= Seq::new(
            (t.len() / 2) as nat,
            |k: int| (hex_digit(t[2 * k])->Some_0 * 16 + hex_digit(t[2 * k + 1])->Some_0) as u8,
        ));
    }
    Some(out)
}

} // verus!
