use vstd::prelude::*;

verus! {

/// The single resource entity.
///
/// `id` is absent on create/update request bodies (the store assigns it) and
/// always present on stored rows.  `price` is carried as the decimal text of
/// the number exactly as it appeared on the wire: the core never computes
/// with a price, it only stores and echoes it, and keeping the text avoids
/// any floating-point value inside the verified core.
#[derive(Clone)]
pub struct Car {
    pub id: Option<i32>,
    pub brand: String,
    pub model: String,
    pub year: i32,
    pub price: String,
}

} // verus!
