use vstd::prelude::*;
use vstd::string::StringSliceAdditionalSpecFns;

use crate::settings::Rgba;

verus! {

/// The value of an ASCII hex digit, either case.
pub open spec fn hex_value(b: u8) -> Option<u8> {
    if 48 <= b <= 57 {
        Some((b - 48) as u8)
    } else if 97 <= b <= 102 {
        Some((b - 87) as u8)
    } else if 65 <= b <= 70 {
        Some((b - 55) as u8)
    } else {
        None
    }
}

/// The byte written by the two hex digits at `i` and `i + 1`.
pub open spec fn hex_pair(bs: Seq<u8>, i: int) -> Option<u8> {
    match (hex_value(bs[i]), hex_value(bs[i + 1])) {
        (Some(h), Some(l)) => Some((h * 16 + l) as u8),
        _ => None,
    }
}

/// `#RRGGBBAA`: nine bytes, a `#` and four pairs of hex digits.
pub open spec fn is_color_shape(bs: Seq<u8>) -> bool {
    bs.len() == 9 && bs[0] == 35
}

/// The colour that `#RRGGBBAA` bytes write, if they are well formed.
pub open spec fn color_of(bs: Seq<u8>) -> Option<Rgba> {
    if is_color_shape(bs) && hex_pair(bs, 1) is Some && hex_pair(bs, 3) is Some && hex_pair(bs, 5) is Some
        && hex_pair(bs, 7) is Some {
        Some(
            Rgba {
                r: hex_pair(bs, 1)->0,
                g: hex_pair(bs, 3)->0,
                b: hex_pair(bs, 5)->0,
                a: hex_pair(bs, 7)->0,
            },
        )
    } else {
        None
    }
}

fn hex_digit(b: u8) -> (r: Option<u8>)
    ensures
        r == hex_value(b),
{
    if 48 <= b && b <= 57 {
        Some(b - 48)
    } else if 97 <= b && b <= 102 {
        Some(b - 87)
    } else if 65 <= b && b <= 70 {
        Some(b - 55)
    } else {
        None
    }
}

fn pair_at(bs: &[u8], i: usize) -> (r: Option<u8>)
    requires
        i + 1 < bs@.len(),
    ensures
        r == hex_pair(bs@, i as int),
{
    match (hex_digit(bs[i]), hex_digit(bs[i + 1])) {
        (Some(h), Some(l)) => Some(h * 16 + l),
        _ => None,
    }
}

/// Reads a colour written `#RRGGBBAA`. The error names the first part that
/// is wrong: the shape, or the red, green, blue or alpha pair.
pub fn hex_to_rgba(hex: &str) -> (r: Result<Rgba, String>)
    ensures
        r is Ok <==> color_of(hex.spec_bytes()) is Some,
        r matches Ok(c) ==> color_of(hex.spec_bytes()) == Some(c),
        ({
            let bs = hex.spec_bytes();
            if !is_color_shape(bs) {
                r matches Err(e) && e@ == "Hex color must be in the format #RRGGBBAA"@
            } else if hex_pair(bs, 1) is None {
                r matches Err(e) && e@ == "Invalid red component"@
            } else if hex_pair(bs, 3) is None {
                r matches Err(e) && e@ == "Invalid green component"@
            } else if hex_pair(bs, 5) is None {
                r matches Err(e) && e@ == "Invalid blue component"@
            } else if hex_pair(bs, 7) is None {
                r matches Err(e) && e@ == "Invalid alpha component"@
            } else {
                r == Ok::<Rgba, String>(
                    Rgba {
                        r: hex_pair(bs, 1)->0,
                        g: hex_pair(bs, 3)->0,
                        b: hex_pair(bs, 5)->0,
                        a: hex_pair(bs, 7)->0,
                    },
                )
            }
        }),
{
    let bs = hex.as_bytes();
    if bs.len() != 9 || bs[0] != 35 {
        return Err("Hex color must be in the format #RRGGBBAA".to_owned());
    }
    let r = match pair_at(bs, 1) {
        Some(v) => v,
        None => return Err("Invalid red component".to_owned()),
    };
    let g = match pair_at(bs, 3) {
        Some(v) => v,
        None => return Err("Invalid green component".to_owned()),
    };
    let b = match pair_at(bs, 5) {
        Some(v) => v,
        None => return Err("Invalid blue component".to_owned()),
    };
    let a = match pair_at(bs, 7) {
        Some(v) => v,
        None => return Err("Invalid alpha component".to_owned()),
    };
    Ok(Rgba { r, g, b, a })
}

} // verus!
