//! The calls that a driver sends to the key-value client.

use vstd::prelude::*;

verus! {

/// One call against the key-value store.
#[derive(Debug, Clone, PartialEq, Eq)]
pub enum KvCall {
    Get { key: String },
    Put { key: String, value: String },
    Swap { key: String, value: String },
    Scan { key_start: String, key_end: String },
}

/// A `KvCall` with the contents of its strings.
pub enum KvCallView {
    Get { key: Seq<char> },
    Put { key: Seq<char>, value: Seq<char> },
    Swap { key: Seq<char>, value: Seq<char> },
    Scan { key_start: Seq<char>, key_end: Seq<char> },
}

impl View for KvCall {
    type V = KvCallView;

    open spec fn view(&self) -> KvCallView {
        match self {
            KvCall::Get { key } => KvCallView::Get { key: key@ },
            KvCall::Put { key, value } => KvCallView::Put { key: key@, value: value@ },
            KvCall::Swap { key, value } => KvCallView::Swap { key: key@, value: value@ },
            KvCall::Scan { key_start, key_end } => KvCallView::Scan {
                key_start: key_start@,
                key_end: key_end@,
            },
        }
    }
}

} // verus!
