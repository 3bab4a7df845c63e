use vstd::prelude::*;
use uefi::data_types::FromStrWithBufError;
use uefi::CStr16;

verus! {

/// Why a file name cannot be given to the firmware's file protocol. Positions
/// count UTF-16 code units from the start of the name.
#[derive(Clone, Copy, Debug, PartialEq, Eq)]
pub enum FileNameError {
    /// The name holds a character outside UCS-2 at this position.
    InvalidChar(usize),
    /// The name holds a NUL character at this position.
    InteriorNul(usize),
    /// The name and its closing NUL do not fit in the buffer.
    BufferTooSmall,
}

/// Number of UTF-16 code units that encode `s`: one per character up to
/// `U+FFFF`, two per character above.
pub open spec fn utf16_len(s: Seq<char>) -> nat
    decreases s.len(),
{
    if s.len() == 0 {
        0
    } else {
        utf16_len(s.drop_last()) + if (s.last() as int) > 0xFFFF {
            2nat
        } else {
            1nat
        }
    }
}

/// Character `c` is a single UCS-2 code unit and not NUL.
pub open spec fn ucs2_char(c: char) -> bool {
    c != '\0' && (c as int) <= 0xFFFF
}

/// `s` holds a character that is not a single non-NUL UCS-2 code unit.
pub open spec fn has_bad_char(s: Seq<char>) -> bool {
    exists|j: int| 0 <= j < s.len() && !ucs2_char(#[trigger] s[j])
}

/// Position of the first character of `s` that is not a single non-NUL UCS-2
/// code unit.
pub open spec fn first_bad_char(s: Seq<char>) -> int {
    choose|j: int|
        0 <= j < s.len() && !ucs2_char(#[trigger] s[j]) && forall|k: int| 0 <= k < j ==> ucs2_char(s[k])
}

/// The firmware's encoding of the name `s` into a buffer of `capacity` code
/// units: too small a buffer for the UTF-16 form and its closing NUL is refused
/// first; otherwise the first character that is NUL or beyond `U+FFFF` is
/// refused; otherwise the name becomes one code unit per character, closed by a
/// NUL unit.
pub open spec fn ucs2_encoding(s: Seq<char>, capacity: nat) -> Result<Seq<u16>, FileNameError> {
    if utf16_len(s) + 1 > capacity {
        Err(FileNameError::BufferTooSmall)
    } else if has_bad_char(s) {
        let j = first_bad_char(s);
        if s[j] == '\0' {
            Err(FileNameError::InteriorNul(j as usize))
        } else {
            Err(FileNameError::InvalidChar(j as usize))
        }
    } else {
        Ok(s.map_values(|c: char| c as u16).push(0u16))
    }
}

proof fn lemma_char_fits_u16(c: char)
    requires
        c as int <= 0xFFFF,
    ensures
        (c as u16) as int == c as int,
{
}

/// A name the firmware accepts is encoded one code unit per character, each
/// unit the character's code, and closed by a single NUL unit.
pub proof fn lemma_encoding_units(s: Seq<char>, capacity: nat)
    requires
        ucs2_encoding(s, capacity) is Ok,
    ensures
        ({
            let units = ucs2_encoding(s, capacity)->Ok_0;
            &&& units.len() == s.len() + 1
            &&& units[s.len() as int] == 0
            &&& forall|i: int| 0 <= i < s.len() ==> #[trigger] units[i] as int == s[i] as int && units[i] != 0
        }),
{
    let units = ucs2_encoding(s, capacity)->Ok_0;
    assert forall|i: int| 0 <= i < s.len() implies #[trigger] units[i] as int == s[i] as int && units[i] != 0 by {
        let c = s[i];
        assert(ucs2_char(c));
        let mapped = s.map_values(|c: char| c as u16);
        assert(units == mapped.push(0u16));
        assert(units[i] == mapped[i]);
        assert(mapped[i] == c as u16);
        lemma_char_fits_u16(c);
    }
}

/// `r` holds what `ucs2_encoding` gives, with the code units in a `Vec`.
pub open spec fn encoding_matches(r: Result<Vec<u16>, FileNameError>, expected: Result<Seq<u16>, FileNameError>) -> bool {
    match r {
        Ok(units) => expected == Ok::<Seq<u16>, FileNameError>(units@),
        Err(e) => expected == Err::<Seq<u16>, FileNameError>(e),
    }
}

/// `uefi::CStr16::from_str_with_buf` on a zeroed buffer of `capacity` code
/// units. Its source encodes `input` as UTF-16 into the buffer, failing with
/// `BufferTooSmall` when the units and a closing NUL do not fit, then checks the
/// units in order, failing with `InvalidChar` at the first surrogate and with
/// `InteriorNul` at a NUL before the closing one. Claimed: the result is
/// `ucs2_encoding(input, capacity)`, the units given back with their closing NUL.
#[verifier::external_body]
fn cstr16_from_str_with_buf(input: &str, capacity: usize) -> (r: Result<Vec<u16>, FileNameError>)
    ensures
        encoding_matches(r, ucs2_encoding(input@, capacity as nat)),
{
    let mut buf: Vec<u16> = vec![0u16; capacity];
    match CStr16::from_str_with_buf(input, &mut buf) {
        Ok(name) => Ok(name.to_u16_slice_with_nul().to_vec()),
        Err(FromStrWithBufError::InvalidChar(p)) => Err(FileNameError::InvalidChar(p)),
        Err(FromStrWithBufError::InteriorNul(p)) => Err(FileNameError::InteriorNul(p)),
        Err(FromStrWithBufError::BufferTooSmall) => Err(FileNameError::BufferTooSmall),
    }
}

/// Code units, closing NUL included, that a file name may take when it is opened.
pub const FILE_NAME_CAPACITY: usize = 4096;

/// The UCS-2 form, closed by a NUL unit, in which `filename` is handed to the
/// firmware's file protocol, or why it cannot be.
pub fn encode_file_name(filename: &str) -> (r: Result<Vec<u16>, FileNameError>)
    ensures
        encoding_matches(r, ucs2_encoding(filename@, FILE_NAME_CAPACITY as nat)),
{
    cstr16_from_str_with_buf(filename, FILE_NAME_CAPACITY)
}

} // verus!
