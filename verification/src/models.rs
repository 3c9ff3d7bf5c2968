//! The values the registry takes in and hands out, with their views.
use vstd::prelude::*;

verus! {

/// A tag reading as a caller submits it.
#[derive(Debug, PartialEq, Eq)]
pub struct TagInput {
    pub epc: String,
    pub tid: Option<String>,
    pub ant: i32,
    pub rssi: i32,
}

/// A stored tag reading.
#[derive(Debug, PartialEq, Eq)]
pub struct TagRecord {
    pub identifier: String,
    pub epc: String,
    pub tid: Option<String>,
    pub ant: i32,
    pub rssi: i32,
    pub created_at_ms: u128,
}

/// The mathematical value of a `TagInput`.
pub struct TagInputView {
    pub epc: Seq<char>,
    pub tid: Option<Seq<char>>,
    pub ant: i32,
    pub rssi: i32,
}

/// The mathematical value of a `TagRecord`.
pub struct TagRecordView {
    pub identifier: Seq<char>,
    pub epc: Seq<char>,
    pub tid: Option<Seq<char>>,
    pub ant: i32,
    pub rssi: i32,
    pub created_at_ms: u128,
}

/// The characters of an optional string.
pub open spec fn opt_chars(o: Option<String>) -> Option<Seq<char>> {
    match o {
        Some(s) => Some(s@),
        None => None,
    }
}

impl View for TagInput {
    type V = TagInputView;

    open spec fn view(&self) -> TagInputView {
        TagInputView { epc: self.epc@, tid: opt_chars(self.tid), ant: self.ant, rssi: self.rssi }
    }
}

impl View for TagRecord {
    type V = TagRecordView;

    open spec fn view(&self) -> TagRecordView {
        TagRecordView {
            identifier: self.identifier@,
            epc: self.epc@,
            tid: opt_chars(self.tid),
            ant: self.ant,
            rssi: self.rssi,
            created_at_ms: self.created_at_ms,
        }
    }
}

/// A copy of an optional string.
pub fn clone_opt_string(o: &Option<String>) -> (r: Option<String>)
    ensures
        opt_chars(r) == opt_chars(*o),
{
    match o {
        Some(s) => Some(s.clone()),
        None => None,
    }
}

/// Whether two optional strings hold the same characters.
pub fn opt_string_eq(a: &Option<String>, b: &Option<String>) -> (r: bool)
    ensures
        r == (opt_chars(*a) == opt_chars(*b)),
{
    match a {
        Some(x) => match b {
            Some(y) => {
                let same = x.eq(y);
                same
            },
            None => false,
        },
        None => b.is_none(),
    }
}

impl Clone for TagInput {
    fn clone(&self) -> (r: Self)
        ensures
            r@ == self@,
    {
        TagInput {
            epc: self.epc.clone(),
            tid: clone_opt_string(&self.tid),
            ant: self.ant,
            rssi: self.rssi,
        }
    }
}

impl Clone for TagRecord {
    fn clone(&self) -> (r: Self)
        ensures
            r@ == self@,
    {
        TagRecord {
            identifier: self.identifier.clone(),
            epc: self.epc.clone(),
            tid: clone_opt_string(&self.tid),
            ant: self.ant,
            rssi: self.rssi,
            created_at_ms: self.created_at_ms,
        }
    }
}

} // verus!
