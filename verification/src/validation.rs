//! The rules a tag reading must meet before it is stored.
use vstd::prelude::*;
use crate::text::chars_of;

verus! {

/// Why a tag reading was refused.
#[derive(Debug, Clone, Copy, PartialEq, Eq, Structural)]
pub enum TagListError {
    InvalidEpc,
    InvalidTid,
    InvalidAnt,
    InvalidRssi,
}

impl TagListError {
    /// The text that explains the error to a caller.
    pub fn message(&self) -> (r: String)
        ensures
            r@ == error_message(*self),
    {
        match self {
            TagListError::InvalidEpc => String::from_str(
                "epc must be non-empty, hexadecimal, and have a length multiple of 4",
            ),
            TagListError::InvalidTid => String::from_str(
                "tid must be exactly 24 hexadecimal characters",
            ),
            TagListError::InvalidAnt => String::from_str("ant must be a positive integer"),
            TagListError::InvalidRssi => String::from_str("rssi must be between -255 and -1"),
        }
    }
}

/// The explanation given for each error.
pub open spec fn error_message(e: TagListError) -> Seq<char> {
    match e {
        TagListError::InvalidEpc => "epc must be non-empty, hexadecimal, and have a length multiple of 4"@,
        TagListError::InvalidTid => "tid must be exactly 24 hexadecimal characters"@,
        TagListError::InvalidAnt => "ant must be a positive integer"@,
        TagListError::InvalidRssi => "rssi must be between -255 and -1"@,
    }
}

/// An ASCII hexadecimal digit, in either case.
pub open spec fn is_hex_digit(c: char) -> bool {
    ('0' <= c <= '9') || ('a' <= c <= 'f') || ('A' <= c <= 'F')
}

/// Every character of `s` is a hexadecimal digit.
pub open spec fn all_hex(s: Seq<char>) -> bool {
    forall|i: int| 0 <= i < s.len() ==> is_hex_digit(#[trigger] s[i])
}

/// An acceptable EPC: non-empty, hexadecimal, of a length that is a multiple of 4.
pub open spec fn epc_is_valid(epc: Seq<char>) -> bool {
    &&& epc.len() > 0
    &&& epc.len() % 4 == 0
    &&& all_hex(epc)
}

/// An acceptable TID: exactly 24 hexadecimal characters.
pub open spec fn tid_is_valid(tid: Seq<char>) -> bool {
    &&& tid.len() == 24
    &&& all_hex(tid)
}

/// An acceptable antenna number: positive.
pub open spec fn ant_is_valid(ant: i32) -> bool {
    ant > 0
}

/// An acceptable signal strength: from -255 to -1.
pub open spec fn rssi_is_valid(rssi: i32) -> bool {
    -255 <= rssi <= -1
}

/// Whether `c` is an ASCII hexadecimal digit.
pub fn is_hex_char(c: char) -> (b: bool)
    ensures
        b == is_hex_digit(c),
{
    ('0' <= c && c <= '9') || ('a' <= c && c <= 'f') || ('A' <= c && c <= 'F')
}

/// Whether every character of `cs` is a hexadecimal digit.
fn all_hex_chars(cs: &Vec<char>) -> (b: bool)
    ensures
        b == all_hex(cs@),
{
    let mut i: usize = 0;
    while i < cs.len()
        invariant
            i <= cs.len(),
            all_hex(cs@.take(i as int)),
        decreases cs.len() - i,
    {
        if !is_hex_char(cs[i]) {
            assert(!is_hex_digit(cs@[i as int]));
            return false;
        }
        assert forall|k: int| 0 <= k < i + 1 implies is_hex_digit(
            #[trigger] cs@.take(i + 1)[k],
        ) by {
            if k < i {
                assert(cs@.take(i + 1)[k] == cs@.take(i as int)[k]);
            }
        }
        i = i + 1;
    }
    assert(cs@.take(i as int) =~= cs@);
    true
}

/// Accepts an EPC that is non-empty, hexadecimal and of a length that is a
/// multiple of 4.
pub fn validate_epc(epc: &str) -> (r: Result<(), TagListError>)
    ensures
        r is Ok <==> epc_is_valid(epc@),
        r is Err ==> r == Err::<(), TagListError>(TagListError::InvalidEpc),
{
    let cs = chars_of(epc);
    if cs.len() == 0 || cs.len() % 4 != 0 || !all_hex_chars(&cs) {
        return Err(TagListError::InvalidEpc);
    }
    Ok(())
}

/// Accepts no TID, or one of exactly 24 hexadecimal characters.
pub fn validate_tid(tid: Option<&str>) -> (r: Result<(), TagListError>)
    ensures
        r is Ok <==> (match tid {
            Some(t) => tid_is_valid(t@),
            None => true,
        }),
        r is Err ==> r == Err::<(), TagListError>(TagListError::InvalidTid),
{
    match tid {
        Some(value) => {
            let cs = chars_of(value);
            if cs.len() == 24 && all_hex_chars(&cs) {
                Ok(())
            } else {
                Err(TagListError::InvalidTid)
            }
        },
        None => Ok(()),
    }
}

/// Accepts a positive antenna number.
pub fn validate_ant(ant: i32) -> (r: Result<(), TagListError>)
    ensures
        r is Ok <==> ant_is_valid(ant),
        r is Err ==> r == Err::<(), TagListError>(TagListError::InvalidAnt),
{
    if ant <= 0 {
        return Err(TagListError::InvalidAnt);
    }
    Ok(())
}

/// Accepts a signal strength from -255 to -1.
pub fn validate_rssi(rssi: i32) -> (r: Result<(), TagListError>)
    ensures
        r is Ok <==> rssi_is_valid(rssi),
        r is Err ==> r == Err::<(), TagListError>(TagListError::InvalidRssi),
{
    if !(-255 <= rssi && rssi <= -1) {
        return Err(TagListError::InvalidRssi);
    }
    Ok(())
}

} // verus!
