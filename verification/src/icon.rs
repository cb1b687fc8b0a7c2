//! App icons: the deterministic fallback icon and its color, the
//! content-addressed cache file name for an app identity, and the data-URL
//! assembly. Hashing and encoding go through the outside crates; everything
//! around them is computed here.

use sha2::Digest;
use vstd::prelude::*;
use vstd::string::is_ascii;
use vstd::string::StringSliceAdditionalSpecFns;

verus! {

/// What base64's standard-alphabet engine with padding returns for a byte
/// sequence.
pub uninterp spec fn base64_of(bytes: Seq<u8>) -> Seq<char>;

/// Relies on base64's `Engine::encode` with the standard alphabet and
/// padding: four output characters for every three input bytes, a function
/// of the bytes alone.
#[verifier::external_body]
fn encode_base64(bytes: &Vec<u8>) -> (r: String)
    requires
        bytes@.len() <= 0x4000_0000_0000_0000,
    ensures
        r@ == base64_of(bytes@),
        r@.len() == 4 * ((bytes@.len() + 2) / 3),
{
    base64::Engine::encode(&base64::engine::general_purpose::STANDARD, bytes)
}

/// What SHA-256 digests a byte sequence to.
pub uninterp spec fn sha256_of(bytes: Seq<u8>) -> Seq<u8>;

/// Relies on sha2's `Sha256::digest`: a 32-byte digest, a function of the
/// input bytes alone.
#[verifier::external_body]
fn sha256_digest(bytes: &Vec<u8>) -> (r: Vec<u8>)
    ensures
        r@ == sha256_of(bytes@),
        r@.len() == 32,
{
    sha2::Sha256::digest(bytes.as_slice()).as_slice().to_vec()
}

/// The lowercase hex digit of a nibble value.
pub open spec fn hex_digit(n: int) -> char {
    if n == 0 {
        '0'
    } else if n == 1 {
        '1'
    } else if n == 2 {
        '2'
    } else if n == 3 {
        '3'
    } else if n == 4 {
        '4'
    } else if n == 5 {
        '5'
    } else if n == 6 {
        '6'
    } else if n == 7 {
        '7'
    } else if n == 8 {
        '8'
    } else if n == 9 {
        '9'
    } else if n == 10 {
        'a'
    } else if n == 11 {
        'b'
    } else if n == 12 {
        'c'
    } else if n == 13 {
        'd'
    } else if n == 14 {
        'e'
    } else {
        'f'
    }
}

/// The lowercase hex spelling of a byte sequence: two digits per byte.
pub open spec fn hex_of(bytes: Seq<u8>) -> Seq<char>
    decreases bytes.len(),
{
    if bytes.len() == 0 {
        Seq::empty()
    } else {
        hex_of(bytes.drop_last()) + seq![
            hex_digit(bytes.last() as int / 16),
            hex_digit(bytes.last() as int % 16),
        ]
    }
}

/// The hex digit of a nibble, as a one-character string.
fn hex_digit_str(n: u8) -> (r: &'static str)
    requires
        n < 16,
    ensures
        r@ =~= seq![hex_digit(n as int)],
{
    proof {
        reveal_strlit("0");
        reveal_strlit("1");
        reveal_strlit("2");
        reveal_strlit("3");
        reveal_strlit("4");
        reveal_strlit("5");
        reveal_strlit("6");
        reveal_strlit("7");
        reveal_strlit("8");
        reveal_strlit("9");
        reveal_strlit("a");
        reveal_strlit("b");
        reveal_strlit("c");
        reveal_strlit("d");
        reveal_strlit("e");
        reveal_strlit("f");
    }
    if n == 0 {
        "0"
    } else if n == 1 {
        "1"
    } else if n == 2 {
        "2"
    } else if n == 3 {
        "3"
    } else if n == 4 {
        "4"
    } else if n == 5 {
        "5"
    } else if n == 6 {
        "6"
    } else if n == 7 {
        "7"
    } else if n == 8 {
        "8"
    } else if n == 9 {
        "9"
    } else if n == 10 {
        "a"
    } else if n == 11 {
        "b"
    } else if n == 12 {
        "c"
    } else if n == 13 {
        "d"
    } else if n == 14 {
        "e"
    } else {
        "f"
    }
}

/// The lowercase hex spelling of bytes.
fn to_hex(bytes: &Vec<u8>) -> (r: String)
    ensures
        r@ == hex_of(bytes@),
{
    let mut s = String::new();
    let mut i: usize = 0;
    proof {
        assert(bytes@.subrange(0, 0) =~= Seq::<u8>::empty());
    }
    while i < bytes.len()
        invariant
            0 <= i <= bytes@.len(),
            s@ == hex_of(bytes@.subrange(0, i as int)),
        decreases bytes@.len() - i,
    {
        let b = bytes[i];
        let hi = hex_digit_str(b / 16);
        let lo = hex_digit_str(b % 16);
        s.append(hi);
        s.append(lo);
        proof {
            assert(bytes@.subrange(0, i as int + 1) =~= bytes@.subrange(0, i as int).push(
                bytes@[i as int],
            ));
            assert(bytes@.subrange(0, i as int + 1).drop_last() =~= bytes@.subrange(
                0,
                i as int,
            ));
            assert(s@ =~= hex_of(bytes@.subrange(0, i as int + 1)));
        }
        i = i + 1;
    }
    proof {
        assert(bytes@.subrange(0, bytes@.len() as int) =~= bytes@);
    }
    s
}

/// The content-addressed icon cache file name of an app identity: the hex
/// SHA-256 of its bytes with a `.txt` suffix, so that any app identity maps
/// to a safe file name.
pub fn icon_cache_file_name(app_id: &str) -> (r: String)
    ensures
        r@ == hex_of(sha256_of(app_id.spec_bytes())) + ".txt"@,
{
    let bytes = app_id.as_bytes_vec();
    let digest = sha256_digest(&bytes);
    let hex = to_hex(&digest);
    hex.concat(".txt")
}

/// Sum of a byte sequence.
pub open spec fn sum_of_bytes(bytes: Seq<u8>) -> int
    decreases bytes.len(),
{
    if bytes.len() == 0 {
        0
    } else {
        sum_of_bytes(bytes.drop_last()) + bytes.last() as int
    }
}

/// The color the fallback icon of an app identity gets: one of eight fixed
/// colors, picked by the byte sum of the identity.
pub open spec fn color_of(bytes: Seq<u8>) -> Seq<char> {
    let idx = sum_of_bytes(bytes) % 8;
    if idx == 0 {
        "#3B82F6"@
    } else if idx == 1 {
        "#EF4444"@
    } else if idx == 2 {
        "#10B981"@
    } else if idx == 3 {
        "#F59E0B"@
    } else if idx == 4 {
        "#8B5CF6"@
    } else if idx == 5 {
        "#EC4899"@
    } else if idx == 6 {
        "#06B6D4"@
    } else {
        "#84CC16"@
    }
}

/// Picks the consistent color of an app identity.
pub fn get_color_for_app(app_id: &str) -> (r: &'static str)
    ensures
        r@ == color_of(app_id.spec_bytes()),
{
    let bytes = app_id.as_bytes_vec();
    let mut sum: u64 = 0;
    let mut i: usize = 0;
    proof {
        assert(bytes@.subrange(0, 0) =~= Seq::<u8>::empty());
    }
    while i < bytes.len()
        invariant
            0 <= i <= bytes@.len(),
            bytes@ == app_id.spec_bytes(),
            sum as int == sum_of_bytes(bytes@.subrange(0, i as int)) % 8,
        decreases bytes@.len() - i,
    {
        proof {
            assert(bytes@.subrange(0, i as int + 1) =~= bytes@.subrange(0, i as int).push(
                bytes@[i as int],
            ));
            assert(bytes@.subrange(0, i as int + 1).drop_last() =~= bytes@.subrange(
                0,
                i as int,
            ));
            vstd::arithmetic::div_mod::lemma_add_mod_noop(
                sum_of_bytes(bytes@.subrange(0, i as int)),
                bytes@[i as int] as int,
                8,
            );
            vstd::arithmetic::div_mod::lemma_mod_twice(
                sum_of_bytes(bytes@.subrange(0, i as int)),
                8,
            );
        }
        sum = (sum + bytes[i] as u64) % 8;
        i = i + 1;
    }
    proof {
        assert(bytes@.subrange(0, bytes@.len() as int) =~= bytes@);
    }
    if sum == 0 {
        "#3B82F6"
    } else if sum == 1 {
        "#EF4444"
    } else if sum == 2 {
        "#10B981"
    } else if sum == 3 {
        "#F59E0B"
    } else if sum == 4 {
        "#8B5CF6"
    } else if sum == 5 {
        "#EC4899"
    } else if sum == 6 {
        "#06B6D4"
    } else {
        "#84CC16"
    }
}

/// The badge letter of an app identity: its first byte, uppercased where it
/// is a lowercase ASCII letter, or 'A' where the identity is empty or its
/// first byte is not printable ASCII.
pub open spec fn initial_of(bytes: Seq<u8>) -> u8 {
    if bytes.len() == 0 {
        65u8
    } else {
        let b = bytes.first();
        if 97 <= b <= 122 {
            (b - 32) as u8
        } else if 32 <= b <= 126 {
            b
        } else {
            65u8
        }
    }
}

/// The SVG document of the fallback icon: a rounded rectangle in the app's
/// color with its badge letter.
pub open spec fn fallback_svg_bytes(bytes: Seq<u8>) -> Seq<u8> {
    ("<svg width=\"64\" height=\"64\" xmlns=\"http://www.w3.org/2000/svg\"><rect width=\"64\" height=\"64\" rx=\"12\" fill=\"").spec_bytes()
        + vstd::utf8::encode_utf8(color_of(bytes)) + ("\"/><text x=\"32\" y=\"42\" font-size=\"28\" fill=\"white\" text-anchor=\"middle\">").spec_bytes()
        + seq![initial_of(bytes)] + ("</text></svg>").spec_bytes()
}

/// A UTF-8 encoding never takes more than four bytes per character.
proof fn lemma_encode_utf8_len_bound(chars: Seq<char>)
    ensures
        vstd::utf8::encode_utf8(chars).len() <= 4 * chars.len(),
    decreases chars.len(),
{
    if chars.len() > 0 {
        lemma_encode_utf8_len_bound(chars.drop_first());
    }
}

/// Builds the fallback icon of an app identity: a deterministic SVG data
/// URL derived from the identity alone.
pub fn create_fallback_icon(app_id: &str) -> (r: String)
    ensures
        r@ == "data:image/svg+xml;base64,"@ + base64_of(fallback_svg_bytes(app_id.spec_bytes())),
{
    let bytes = app_id.as_bytes_vec();
    let initial: u8 = if bytes.len() == 0 {
        65u8
    } else {
        let b = bytes[0];
        if 97 <= b && b <= 122 {
            b - 32
        } else if 32 <= b && b <= 126 {
            b
        } else {
            65u8
        }
    };
    let color = get_color_for_app(app_id);
    let mut svg: Vec<u8> = (
    "<svg width=\"64\" height=\"64\" xmlns=\"http://www.w3.org/2000/svg\"><rect width=\"64\" height=\"64\" rx=\"12\" fill=\"").as_bytes_vec();
    let mut color_bytes = color.as_bytes_vec();
    svg.append(&mut color_bytes);
    let mut mid = (
    "\"/><text x=\"32\" y=\"42\" font-size=\"28\" fill=\"white\" text-anchor=\"middle\">").as_bytes_vec();
    svg.append(&mut mid);
    svg.push(initial);
    let mut tail = ("</text></svg>").as_bytes_vec();
    svg.append(&mut tail);
    proof {
        assert(color@ == color_of(app_id.spec_bytes()));
        assert(svg@ =~= fallback_svg_bytes(app_id.spec_bytes()));
        reveal_strlit(
            "<svg width=\"64\" height=\"64\" xmlns=\"http://www.w3.org/2000/svg\"><rect width=\"64\" height=\"64\" rx=\"12\" fill=\"",
        );
        reveal_strlit(
            "\"/><text x=\"32\" y=\"42\" font-size=\"28\" fill=\"white\" text-anchor=\"middle\">",
        );
        reveal_strlit("</text></svg>");
        reveal_strlit("#3B82F6");
        reveal_strlit("#EF4444");
        reveal_strlit("#10B981");
        reveal_strlit("#F59E0B");
        reveal_strlit("#8B5CF6");
        reveal_strlit("#EC4899");
        reveal_strlit("#06B6D4");
        reveal_strlit("#84CC16");
        lemma_encode_utf8_len_bound((
        "<svg width=\"64\" height=\"64\" xmlns=\"http://www.w3.org/2000/svg\"><rect width=\"64\" height=\"64\" rx=\"12\" fill=\"")@);
        lemma_encode_utf8_len_bound((
        "\"/><text x=\"32\" y=\"42\" font-size=\"28\" fill=\"white\" text-anchor=\"middle\">")@);
        lemma_encode_utf8_len_bound(("</text></svg>")@);
        lemma_encode_utf8_len_bound(color_of(app_id.spec_bytes()));
        assert(color_of(app_id.spec_bytes()).len() == 7);
        assert(svg@.len() <= 0x4000_0000_0000_0000);
    }
    let encoded = encode_base64(&svg);
    let prefix = String::from_str("data:image/svg+xml;base64,");
    prefix.concat(encoded.as_str())
}

/// The SVG document of the screenshot placeholder: a fixed gray card
/// saying that the image is not available.
pub open spec fn placeholder_svg_bytes() -> Seq<u8> {
    (
    "<svg width=\"100\" height=\"100\" xmlns=\"http://www.w3.org/2000/svg\"><rect width=\"100\" height=\"100\" fill=\"#374151\"/><text x=\"50\" y=\"45\" font-size=\"10\" fill=\"white\" text-anchor=\"middle\">Screenshot</text><text x=\"50\" y=\"60\" font-size=\"10\" fill=\"white\" text-anchor=\"middle\">Not Available</text></svg>").spec_bytes()
}

/// The placeholder served in a screenshot listing where the image cannot
/// be read or is too large to inline: a fixed SVG data URL, the same for
/// every caller.
pub fn screenshot_placeholder_data_url() -> (r: String)
    ensures
        r@ == "data:image/svg+xml;base64,"@ + base64_of(placeholder_svg_bytes()),
{
    let svg = (
    "<svg width=\"100\" height=\"100\" xmlns=\"http://www.w3.org/2000/svg\"><rect width=\"100\" height=\"100\" fill=\"#374151\"/><text x=\"50\" y=\"45\" font-size=\"10\" fill=\"white\" text-anchor=\"middle\">Screenshot</text><text x=\"50\" y=\"60\" font-size=\"10\" fill=\"white\" text-anchor=\"middle\">Not Available</text></svg>").as_bytes_vec();
    proof {
        lemma_encode_utf8_len_bound((
        "<svg width=\"100\" height=\"100\" xmlns=\"http://www.w3.org/2000/svg\"><rect width=\"100\" height=\"100\" fill=\"#374151\"/><text x=\"50\" y=\"45\" font-size=\"10\" fill=\"white\" text-anchor=\"middle\">Screenshot</text><text x=\"50\" y=\"60\" font-size=\"10\" fill=\"white\" text-anchor=\"middle\">Not Available</text></svg>")@);
        reveal_strlit(
            "<svg width=\"100\" height=\"100\" xmlns=\"http://www.w3.org/2000/svg\"><rect width=\"100\" height=\"100\" fill=\"#374151\"/><text x=\"50\" y=\"45\" font-size=\"10\" fill=\"white\" text-anchor=\"middle\">Screenshot</text><text x=\"50\" y=\"60\" font-size=\"10\" fill=\"white\" text-anchor=\"middle\">Not Available</text></svg>",
        );
    }
    let encoded = encode_base64(&svg);
    let prefix = String::from_str("data:image/svg+xml;base64,");
    prefix.concat(encoded.as_str())
}

/// The fallback path of icon extraction: where the platform cannot provide
/// a real icon, the app gets its deterministic generated one.
pub fn get_app_icon_base64(app_id: &str) -> (r: String)
    ensures
        r@ == "data:image/svg+xml;base64,"@ + base64_of(fallback_svg_bytes(app_id.spec_bytes())),
{
    create_fallback_icon(app_id)
}

} // verus!
