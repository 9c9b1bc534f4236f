use vstd::prelude::*;

verus! {

/// A stored document with the key the store gave it.
#[derive(Debug, Clone)]
pub struct DbEntry<T> {
    pub id: i64,
    pub value: T,
}

/// A stored document as the store holds it: its key and its JSON text.
pub struct DbEntryInner {
    pub id: i64,
    pub value: String,
}

} // verus!
