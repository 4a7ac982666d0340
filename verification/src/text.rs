//! How identifiers are written out in logs and messages.
use tagged_base64::TaggedBase64;
use vstd::prelude::*;

use crate::block::BlockId;
use crate::block::BuilderStateId;
use crate::block::ParentBlockReferences;

verus! {

/// The character of a decimal digit.
pub open spec fn digit_char(d: nat) -> char {
    if d == 0 {
        '0'
    } else if d == 1 {
        '1'
    } else if d == 2 {
        '2'
    } else if d == 3 {
        '3'
    } else if d == 4 {
        '4'
    } else if d == 5 {
        '5'
    } else if d == 6 {
        '6'
    } else if d == 7 {
        '7'
    } else if d == 8 {
        '8'
    } else {
        '9'
    }
}

/// The decimal numeral of `n`, without leading zeros.
pub open spec fn decimal(n: nat) -> Seq<char>
    decreases n,
{
    if n < 10 {
        seq![digit_char(n)]
    } else {
        decimal(n / 10).push(digit_char(n % 10))
    }
}

/// The character of a lowercase hexadecimal digit.
pub open spec fn hex_char(d: nat) -> char {
    if d < 10 {
        digit_char(d)
    } else if d == 10 {
        'a'
    } else if d == 11 {
        'b'
    } else if d == 12 {
        'c'
    } else if d == 13 {
        'd'
    } else if d == 14 {
        'e'
    } else {
        'f'
    }
}

/// Two lowercase hexadecimal digits per byte, most significant first.
pub open spec fn hex_text(bytes: Seq<u8>) -> Seq<char>
    decreases bytes.len(),
{
    if bytes.len() == 0 {
        seq![]
    } else {
        hex_text(bytes.drop_last()) + seq![
            hex_char((bytes.last() / 16) as nat),
            hex_char((bytes.last() % 16) as nat),
        ]
    }
}

/// What `TaggedBase64::new(tag, value)` shows through `Display`.
pub uninterp spec fn tagged_base64_text(tag: Seq<char>, value: Seq<u8>) -> Seq<char>;

/// `hex::encode`: two lowercase hexadecimal digits per byte.
#[verifier::external_body]
fn hex_encode(bytes: &[u8]) -> (r: String)
    ensures
        r@ == hex_text(bytes@),
{
    hex::encode(bytes)
}

/// A character allowed in a tag of a tagged base64 text: an ASCII letter or
/// digit, `-` or `_`.
pub open spec fn tag_char(c: char) -> bool {
    ('a' <= c && c <= 'z') || ('A' <= c && c <= 'Z') || ('0' <= c && c <= '9') || c == '-' || c
        == '_'
}

/// `TaggedBase64::new`, shown through `Display`: the tag, `~`, then the
/// URL-safe base64 of the value and a checksum byte. The tag must consist of
/// allowed characters, else `new` refuses it.
#[verifier::external_body]
fn tagged_text(tag: &str, bytes: &[u8]) -> (r: String)
    requires
        forall|i: int| 0 <= i < tag@.len() ==> tag_char(#[trigger] tag@[i]),
    ensures
        r@ == tagged_base64_text(tag@, bytes@),
        r@.len() > tag@.len() && r@.subrange(0, tag@.len() as int) == tag@ && r@[tag@.len() as int]
            == '~',
{
    TaggedBase64::new(tag, bytes).unwrap().to_string()
}

/// The text of one decimal digit.
fn digit_str(d: u64) -> (s: &'static str)
    requires
        d < 10,
    ensures
        s@ == seq![digit_char(d as nat)],
{
    proof {
        reveal_strlit("0");
        reveal_strlit("1");
        reveal_strlit("2");
        reveal_strlit("3");
        reveal_strlit("4");
        reveal_strlit("5");
        reveal_strlit("6");
        reveal_strlit("7");
        reveal_strlit("8");
        reveal_strlit("9");
    }
    if d == 0 {
        "0"
    } else if d == 1 {
        "1"
    } else if d == 2 {
        "2"
    } else if d == 3 {
        "3"
    } else if d == 4 {
        "4"
    } else if d == 5 {
        "5"
    } else if d == 6 {
        "6"
    } else if d == 7 {
        "7"
    } else if d == 8 {
        "8"
    } else {
        "9"
    }
}

/// The decimal numeral of `n`.
pub fn decimal_string(n: u64) -> (s: String)
    ensures
        s@ == decimal(n as nat),
    decreases n,
{
    if n < 10 {
        digit_str(n).to_string()
    } else {
        let mut s = decimal_string(n / 10);
        s.append(digit_str(n % 10));
        s
    }
}

impl BlockId {
    /// `Block(<hex of the hash>@<view>)`
    pub fn to_display_string(&self) -> (s: String)
        ensures
            s@ == "Block("@ + hex_text(self.hash.bytes@) + "@"@ + decimal(self.view as nat) + ")"@,
    {
        let mut s = "Block(".to_string();
        let h = hex_encode(&self.hash.bytes);
        s.append(h.as_str());
        s.append("@");
        let v = decimal_string(self.view);
        s.append(v.as_str());
        s.append(")");
        s
    }
}

impl BuilderStateId {
    /// `BuilderState(<tagged base64 of the commitment>@<view>)`
    pub fn to_display_string(&self) -> (s: String)
        ensures
            s@ == "BuilderState("@ + tagged_base64_text("HASH"@, self.parent_commitment.bytes@)
                + "@"@ + decimal(self.parent_view as nat) + ")"@,
    {
        let mut s = "BuilderState(".to_string();
        let tag = "HASH";
        proof {
            reveal_strlit("HASH");
        }
        let c = tagged_text(tag, &self.parent_commitment.bytes);
        s.append(c.as_str());
        s.append("@");
        let v = decimal_string(self.parent_view);
        s.append(v.as_str());
        s.append(")");
        s
    }
}

impl ParentBlockReferences {
    /// `View Number: ViewNumber(<view>)`
    pub fn to_display_string(&self) -> (s: String)
        ensures
            s@ == "View Number: ViewNumber("@ + decimal(self.view_number as nat) + ")"@,
    {
        let mut s = "View Number: ViewNumber(".to_string();
        let v = decimal_string(self.view_number);
        s.append(v.as_str());
        s.append(")");
        s
    }
}

} // verus!
