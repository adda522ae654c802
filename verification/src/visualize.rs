//! Showing lines on a map: how a line is drawn, and the address that shows a document.

use vstd::prelude::*;
use vstd::utf8::encode_utf8;

verus! {

/// How a line is drawn. `opacity` is the bit pattern of an IEEE 754 single.
#[derive(Clone, Debug)]
pub struct FeatureProperties {
    pub color: String,
    pub width: Option<u8>,
    pub opacity: Option<u32>,
}

impl Default for FeatureProperties {
    fn default() -> (properties: FeatureProperties)
        ensures
            properties.color@ == Seq::<char>::empty(),
            properties.width.is_none(),
            properties.opacity.is_none(),
    {
        FeatureProperties { color: String::new(), width: None, opacity: None }
    }
}

impl FeatureProperties {
    /// Properties that name no colour, no width and no opacity.
    pub fn new() -> (properties: FeatureProperties)
        ensures
            properties.color@ == Seq::<char>::empty(),
            properties.width.is_none(),
            properties.opacity.is_none(),
    {
        FeatureProperties { color: String::new(), width: None, opacity: None }
    }

    /// The same properties with another colour.
    pub fn color(self, color: &str) -> (properties: FeatureProperties)
        ensures
            properties.color@ == color@,
            properties.width == self.width,
            properties.opacity == self.opacity,
    {
        FeatureProperties { color: String::from_str(color), width: self.width, opacity: self.opacity }
    }
}

/// Whether a byte stands for itself in an address: a digit, a letter of the English
/// alphabet, or one of `-`, `.`, `_` and `~`.
pub open spec fn is_unreserved(byte: u8) -> bool {
    ||| 0x30 <= byte <= 0x39
    ||| 0x41 <= byte <= 0x5a
    ||| 0x61 <= byte <= 0x7a
    ||| byte == 0x2d
    ||| byte == 0x2e
    ||| byte == 0x5f
    ||| byte == 0x7e
}

/// The digit of base sixteen for a value below sixteen, letters in upper case.
pub open spec fn hex_digit(value: u8) -> char {
    if value < 10 {
        (0x30 + value) as u8 as char
    } else {
        (0x41 + value - 10) as u8 as char
    }
}

/// A byte as it stands in an address: itself if it is unreserved, and else a percent sign
/// and its two digits of base sixteen.
pub open spec fn escaped(byte: u8) -> Seq<char> {
    if is_unreserved(byte) {
        seq![byte as char]
    } else {
        seq!['%', hex_digit(byte / 16), hex_digit(byte % 16)]
    }
}

/// Bytes as they stand in an address, one after the other.
pub open spec fn percent_encoded(bytes: Seq<u8>) -> Seq<char>
    decreases bytes.len(),
{
    if bytes.len() == 0 {
        Seq::empty()
    } else {
        percent_encoded(bytes.drop_last()) + escaped(bytes.last())
    }
}

/// What every map address starts with.
pub open spec fn map_address_head() -> Seq<char> {
    "http://geojson.io/#data=data:application/json,"@
}

/// `urlencoding::encode`: the text with every byte of its UTF-8 form percent-encoded,
/// but for digits, English letters and `-`, `.`, `_`, `~`, which stay; the digits of
/// base sixteen are in upper case.
#[verifier::external_body]
fn percent_encode(text: &str) -> (encoded: String)
    ensures
        encoded@ == percent_encoded(encode_utf8(text@)),
{
    urlencoding::encode(text).into_owned()
}

/// The address that shows a document which is already percent-encoded.
pub fn map_address_of(encoded: &str) -> (address: String)
    ensures
        address@ == map_address_head() + encoded@,
{
    let mut address = String::from_str("http://geojson.io/#data=data:application/json,");
    address.append(encoded);
    address
}

/// The address under which geojson.io shows the GeoJSON document `geojson`.
pub fn map_address(geojson: &str) -> (address: String)
    ensures
        address@ == map_address_head() + percent_encoded(encode_utf8(geojson@)),
{
    let encoded = percent_encode(geojson);
    map_address_of(encoded.as_str())
}

} // verus!
