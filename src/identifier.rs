use vstd::prelude::*;
use vstd::string::*;

verus! {

/// The value of nibble `j` of `b`, counting from the high nibble of the first byte.
pub open spec fn nibble(b: Seq<u8>, j: int) -> u8 {
    if j % 2 == 0 {
        b[j / 2] / 16
    } else {
        b[j / 2] % 16
    }
}

/// The lower-case hexadecimal digit for a value below sixteen.
pub open spec fn hex_char(n: u8) -> char {
    if n < 10 {
        ((n + 48) as u8) as char
    } else {
        ((n + 87) as u8) as char
    }
}

/// The positions of the canonical text that hold a hyphen.
pub open spec fn is_hyphen_position(k: int) -> bool {
    k == 8 || k == 13 || k == 18 || k == 23
}

/// Which nibble the character at position `k` of the canonical text shows.
pub open spec fn nibble_position(k: int) -> int {
    if k < 8 {
        k
    } else if k < 13 {
        k - 1
    } else if k < 18 {
        k - 2
    } else if k < 23 {
        k - 3
    } else {
        k - 4
    }
}

/// The canonical text of a 128-bit identifier: 32 lower-case hexadecimal
/// digits in groups of 8, 4, 4, 4 and 12, joined by hyphens.
pub open spec fn canonical_text(b: Seq<u8>) -> Seq<char> {
    Seq::new(
        36,
        |k: int|
            if is_hyphen_position(k) {
                '-'
            } else {
                hex_char(nibble(b, nibble_position(k)))
            },
    )
}

/// The name of the file that stores the submission with identifier `b`.
pub open spec fn file_name_text(b: Seq<u8>) -> Seq<char> {
    canonical_text(b) + ".json"@
}

/// Version 4 (random) with the RFC 4122 variant, as the identifier's bits say.
pub open spec fn is_random_version(b: Seq<u8>) -> bool {
    b.len() == 16 && b[6] / 16 == 4 && b[8] / 64 == 2
}

/// Relies on uuid::Uuid::new_v4: sixteen random bytes, with the version nibble
/// set to 4 and the two variant bits set to 1 and 0.
#[verifier::external_body]
fn new_v4_bytes() -> (r: [u8; 16])
    ensures
        is_random_version(r@),
{
    uuid::Uuid::new_v4().into_bytes()
}

/// Relies on uuid's Display for Uuid (its hyphenated lower-case form): the
/// 36 characters of the canonical text of the bytes.
#[verifier::external_body]
fn uuid_text(b: &[u8; 16]) -> (r: String)
    ensures
        r@ == canonical_text(b@),
{
    uuid::Uuid::from_bytes(*b).to_string()
}

/// A 128-bit identifier that names one stored submission.
#[derive(Clone, Copy, Debug, PartialEq, Eq)]
pub struct Identifier {
    pub bytes: [u8; 16],
}

impl Identifier {
    /// A fresh random identifier.
    pub fn new_random() -> (r: Identifier)
        ensures
            is_random_version(r.bytes@),
    {
        Identifier { bytes: new_v4_bytes() }
    }

    /// The identifier with the given bytes, for callers that supply their own.
    pub fn from_bytes(bytes: [u8; 16]) -> (r: Identifier)
        ensures
            r.bytes == bytes,
    {
        Identifier { bytes }
    }

    /// The identifier in its canonical text form.
    pub fn text(&self) -> (r: String)
        ensures
            r@ == canonical_text(self.bytes@),
    {
        uuid_text(&self.bytes)
    }

    /// The name of the file that stores the submission with this identifier.
    pub fn file_name(&self) -> (r: String)
        ensures
            r@ == file_name_text(self.bytes@),
    {
        let mut name = self.text();
        name.append(".json");
        name
    }
}

proof fn lemma_hex_char_injective(m: u8, n: u8)
    requires
        m < 16,
        n < 16,
        hex_char(m) == hex_char(n),
    ensures
        m == n,
{
}

/// Distinct identifiers give distinct canonical texts, and so distinct file
/// names: no stored submission is named like another with another identifier.
pub proof fn lemma_file_name_injective(a: Seq<u8>, b: Seq<u8>)
    requires
        a.len() == 16,
        b.len() == 16,
        a != b,
    ensures
        canonical_text(a) != canonical_text(b),
        file_name_text(a) != file_name_text(b),
{
    assert(!(a =~= b));
    let i = choose|i: int| 0 <= i < 16 && a[i] != b[i];
    let j: int = if a[i] / 16 != b[i] / 16 {
        2 * i
    } else {
        2 * i + 1
    };
    assert(nibble(a, j) != nibble(b, j)) by {
        if a[i] / 16 == b[i] / 16 {
            assert(a[i] % 16 != b[i] % 16);
        }
    }
    let k: int = if j < 8 {
        j
    } else if j < 12 {
        j + 1
    } else if j < 16 {
        j + 2
    } else if j < 20 {
        j + 3
    } else {
        j + 4
    };
    assert(!is_hyphen_position(k) && nibble_position(k) == j);
    if canonical_text(a)[k] == canonical_text(b)[k] {
        lemma_hex_char_injective(nibble(a, j), nibble(b, j));
    }
    assert(canonical_text(a)[k] != canonical_text(b)[k]);
    assert(file_name_text(a)[k] == canonical_text(a)[k]);
    assert(file_name_text(b)[k] == canonical_text(b)[k]);
}

} // verus!
