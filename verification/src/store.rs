use vstd::prelude::*;
use vstd::pervasive::VecAdditionalExecFns;
use crate::vehicle::Car;

verus! {

/// Statement the gateway issues once at startup to provision the backing
/// table; failure to run it is reported but not fatal.
pub const CREATE_TABLE_SQL: &'static str = "CREATE TABLE IF NOT EXISTS cars ( id SERIAL PRIMARY KEY, brand VARCHAR NOT NULL, model VARCHAR NOT NULL, year INT NOT NULL, price FLOAT NOT NULL )";

/// Statement the gateway issues to insert a row; the store assigns the id.
pub const INSERT_SQL: &'static str = "INSERT INTO cars (brand, model, year, price) VALUES ($1, $2, $3, $4)";

/// Statement the gateway issues for a single-row lookup by id.
pub const SELECT_ONE_SQL: &'static str = "SELECT * FROM cars WHERE id = $1";

/// Statement the gateway issues for the full scan.
pub const SELECT_ALL_SQL: &'static str = "SELECT id, brand, model, year, price FROM cars";

/// Statement the gateway issues to update all four fields by id.
pub const UPDATE_SQL: &'static str = "UPDATE cars SET brand = $1, model = $2, year = $3, price = $4 WHERE id = $5";

/// Statement the gateway issues to delete by id; the affected-row count
/// tells absence apart from success.
pub const DELETE_SQL: &'static str = "DELETE FROM cars WHERE id = $1";

/// The row a create or update request with payload `car` leaves in the store
/// under identifier `id`: the payload's fields with the store-assigned id.
pub open spec fn stored(car: Car, id: i32) -> Car {
    Car { id: Some(id), brand: car.brand, model: car.model, year: car.year, price: car.price }
}

/// Some row at or after `i` carries identifier `id`.
pub open spec fn contains_id_from(rows: Seq<Car>, id: i32, i: int) -> bool {
    exists|k: int| i <= k < rows.len() && rows[k].id == Some(id)
}

/// Some row carries identifier `id`.
pub open spec fn contains_id(rows: Seq<Car>, id: i32) -> bool {
    contains_id_from(rows, id, 0)
}

/// Index of the first row at or after `i` carrying identifier `id`.
pub open spec fn find_row_from(rows: Seq<Car>, id: i32, i: int) -> Option<int>
    recommends
        0 <= i,
    decreases rows.len() - i when 0 <= i
{
    if i >= rows.len() {
        None
    } else if rows[i].id == Some(id) {
        Some(i)
    } else {
        find_row_from(rows, id, i + 1)
    }
}

/// Index of the first row carrying identifier `id`.
pub open spec fn find_row(rows: Seq<Car>, id: i32) -> Option<int> {
    find_row_from(rows, id, 0)
}

/// The rows after an update of identifier `id` with payload `car`: every row
/// carrying `id` is replaced by the payload under that id, every other row
/// is kept, and no row is added or removed.
pub open spec fn update_rows(rows: Seq<Car>, id: i32, car: Car) -> Seq<Car> {
    rows.map(|k: int, r: Car| if r.id == Some(id) { stored(car, id) } else { r })
}

/// The store model: the rows of the single backing table and the counter the
/// store assigns the next identifier from.
pub struct Store {
    pub rows: Vec<Car>,
    pub next_id: i32,
}

impl Store {
    /// Every row has an identifier, identifiers are at least 1 and below the
    /// counter, and no two rows share one.
    pub open spec fn wf(self) -> bool {
        &&& 1 <= self.next_id
        &&& forall|i: int| 0 <= i < self.rows@.len() ==> (#[trigger] self.rows@[i].id) is Some
        &&& forall|i: int| 0 <= i < self.rows@.len() ==> 1 <= (#[trigger] self.rows@[i].id)->0
            < self.next_id
        &&& forall|i: int, j: int|
            0 <= i < j < self.rows@.len() ==> (#[trigger] self.rows@[i].id) != (
            #[trigger] self.rows@[j].id)
    }

    /// An empty store that will assign identifiers from 1 on.
    pub fn new() -> (s: Store)
        ensures
            s.wf(),
            s.rows@.len() == 0,
            s.next_id == 1,
    {
        Store { rows: Vec::new(), next_id: 1 }
    }

    /// Insert a row: the payload's fields are stored under a fresh
    /// identifier, which is returned; every existing row is kept.  The
    /// payload's own `id` field is ignored, as the store owns identity
    /// assignment.
    pub fn create(&mut self, car: Car) -> (id: i32)
        requires
            old(self).wf(),
            old(self).next_id < i32::MAX,
        ensures
            final(self).wf(),
            id == old(self).next_id,
            final(self).next_id == old(self).next_id + 1,
            final(self).rows@ == old(self).rows@.push(stored(car, id)),
            !contains_id(old(self).rows@, id),
    {
        let id = self.next_id;
        self.next_id = id + 1;
        let row = Car {
            id: Some(id),
            brand: car.brand,
            model: car.model,
            year: car.year,
            price: car.price,
        };
        self.rows.push(row);
        id
    }

    /// Single-row lookup: returns the row carrying `id` exactly when one is
    /// stored, and nothing otherwise.
    pub fn get_one(&self, id: i32) -> (r: Option<&Car>)
        ensures
            match r {
                Some(c) => find_row(self.rows@, id) is Some && *c == self.rows@[find_row(
                    self.rows@,
                    id,
                )->0],
                None => !contains_id(self.rows@, id),
            },
            (r is Some) <==> contains_id(self.rows@, id),
    {
        proof {
            lemma_find_row_some_iff(self.rows@, id, 0);
        }
        match find_index(&self.rows, id) {
            Some(j) => Some(&self.rows[j]),
            None => None,
        }
    }

    /// Full scan: returns exactly the currently stored rows — in particular
    /// the same multiset of rows, with as many entries as there are rows.
    pub fn get_all(&self) -> (r: &Vec<Car>)
        ensures
            r@ == self.rows@,
            r@.to_multiset() == self.rows@.to_multiset(),
            r@.len() == self.rows@.len(),
    {
        &self.rows
    }

    /// Update by id: every row carrying `id` takes the payload's fields,
    /// every other row is kept, and no row is added or removed.  An absent
    /// id is not distinguished: the call succeeds and the store is left
    /// unchanged.
    pub fn update(&mut self, id: i32, car: Car)
        requires
            old(self).wf(),
        ensures
            final(self).wf(),
            final(self).next_id == old(self).next_id,
            final(self).rows@ == update_rows(old(self).rows@, id, car),
            final(self).rows@.len() == old(self).rows@.len(),
            !contains_id(old(self).rows@, id) ==> final(self).rows@ == old(self).rows@,
    {
        let ghost rows0 = self.rows@;
        match find_index(&self.rows, id) {
            Some(j) => {
                let row = Car {
                    id: Some(id),
                    brand: car.brand,
                    model: car.model,
                    year: car.year,
                    price: car.price,
                };
                self.rows.set(j, row);
                proof {
                    lemma_find_row_some_iff(rows0, id, 0);
                    assert forall|k: int| 0 <= k < rows0.len() implies self.rows@[k]
                        == update_rows(rows0, id, car)[k] by {
                        if k < j && rows0[k].id == Some(id) {
                            lemma_find_row_first(rows0, id, 0, k);
                        }
                        assert(k > j ==> rows0[k].id != rows0[j as int].id);
                    }
                    assert(self.rows@ =~= update_rows(rows0, id, car));
                }
            },
            None => {
                proof {
                    lemma_find_row_none(rows0, id, 0);
                    assert(self.rows@ =~= update_rows(rows0, id, car));
                }
            },
        }
    }

    /// Delete by id: returns the number of rows removed.  A stored id is
    /// removed — it no longer occurs in the rows — and counted as 1; an
    /// absent id leaves the store unchanged and is counted as 0.  Every row
    /// with a different id is kept.
    pub fn delete(&mut self, id: i32) -> (n: u64)
        requires
            old(self).wf(),
        ensures
            final(self).wf(),
            final(self).next_id == old(self).next_id,
            match find_row(old(self).rows@, id) {
                Some(j) => n == 1 && final(self).rows@ == old(self).rows@.remove(j),
                None => n == 0 && final(self).rows@ == old(self).rows@,
            },
            n == 1 <==> contains_id(old(self).rows@, id),
            n == 0 <==> !contains_id(old(self).rows@, id),
            !contains_id(final(self).rows@, id),
    {
        proof {
            lemma_find_row_some_iff(self.rows@, id, 0);
        }
        let ghost rows0 = self.rows@;
        match find_index(&self.rows, id) {
            Some(j) => {
                self.rows.remove(j);
                proof {
                    assert forall|k: int| 0 <= k < self.rows@.len() implies self.rows@[k].id
                        != Some(id) by {
                        if k < j {
                            lemma_find_row_first(rows0, id, 0, k);
                        } else {
                            assert(self.rows@[k] == rows0[k + 1]);
                            assert(rows0[k + 1].id != rows0[j as int].id);
                        }
                    }
                }
                1
            },
            None => {
                proof {
                    lemma_find_row_none(rows0, id, 0);
                }
                0
            },
        }
    }
}

/// Index of the first row carrying `id`, if any.
fn find_index(rows: &Vec<Car>, id: i32) -> (r: Option<usize>)
    ensures
        match r {
            Some(j) => j < rows@.len() && find_row(rows@, id) == Some(j as int),
            None => find_row(rows@, id) is None,
        },
{
    let n = rows.len();
    let mut i: usize = 0;
    while i < n
        invariant
            i <= n,
            n == rows@.len(),
            find_row(rows@, id) == find_row_from(rows@, id, i as int),
        decreases n - i,
    {
        let hit = match rows[i].id {
            Some(x) => x == id,
            None => false,
        };
        if hit {
            return Some(i);
        }
        i = i + 1;
    }
    None
}

/// A row with `id` stands at or after `i` exactly when the search from `i`
/// finds one.
pub proof fn lemma_find_row_some_iff(rows: Seq<Car>, id: i32, i: int)
    requires
        0 <= i,
    ensures
        (find_row_from(rows, id, i) is Some) <==> contains_id_from(rows, id, i),
        match find_row_from(rows, id, i) {
            Some(j) => i <= j < rows.len() && rows[j].id == Some(id),
            None => true,
        },
    decreases rows.len() - i,
{
    if i < rows.len() && rows[i].id != Some(id) {
        lemma_find_row_some_iff(rows, id, i + 1);
        if contains_id_from(rows, id, i) {
            let k = choose|k: int| i <= k < rows.len() && rows[k].id == Some(id);
            assert(i + 1 <= k < rows.len() && rows[k].id == Some(id));
        }
    }
}

/// No row at or after `i` carries `id` when the search from `i` fails.
proof fn lemma_find_row_none(rows: Seq<Car>, id: i32, i: int)
    requires
        0 <= i,
        find_row_from(rows, id, i) is None,
    ensures
        forall|k: int| i <= k < rows.len() ==> (#[trigger] rows[k].id) != Some(id),
    decreases rows.len() - i,
{
    if i < rows.len() {
        lemma_find_row_none(rows, id, i + 1);
    }
}

/// No row before the one the search finds carries `id`.
proof fn lemma_find_row_first(rows: Seq<Car>, id: i32, i: int, k: int)
    requires
        0 <= i <= k,
        find_row_from(rows, id, i) is Some,
        k < find_row_from(rows, id, i)->0,
    ensures
        rows[k].id != Some(id),
    decreases k - i,
{
    if i < k {
        lemma_find_row_first(rows, id, i + 1, k);
    }
}

/// Round trip of create and single-row lookup: pushing the payload under a
/// fresh identifier makes the lookup of that identifier find exactly the new
/// row — the payload's brand, model, year and price under the new id.
pub proof fn lemma_create_then_get_one(rows: Seq<Car>, car: Car, id: i32)
    requires
        forall|i: int| 0 <= i < rows.len() ==> (#[trigger] rows[i].id) is Some,
        forall|i: int| 0 <= i < rows.len() ==> (#[trigger] rows[i].id)->0 < id,
    ensures
        find_row(rows.push(stored(car, id)), id) == Some(rows.len() as int),
        rows.push(stored(car, id))[rows.len() as int] == stored(car, id),
{
    lemma_fresh_id_found_last(rows.push(stored(car, id)), id, 0);
}

/// In a sequence whose last row alone carries `id`, the search from any
/// earlier index finds the last row.
proof fn lemma_fresh_id_found_last(rows: Seq<Car>, id: i32, i: int)
    requires
        0 <= i < rows.len(),
        rows[rows.len() - 1].id == Some(id),
        forall|k: int| 0 <= k < rows.len() - 1 ==> (#[trigger] rows[k].id) != Some(id),
    ensures
        find_row_from(rows, id, i) == Some(rows.len() - 1),
    decreases rows.len() - i,
{
    if i < rows.len() - 1 {
        lemma_fresh_id_found_last(rows, id, i + 1);
    }
}

/// Round trip of update and single-row lookup: after an update of a stored
/// identifier the lookup of that identifier finds the payload's fields under
/// it, at the same position; after an update of an absent identifier the
/// lookup still fails, and the rows are unchanged.
pub proof fn lemma_update_then_get_one(rows: Seq<Car>, id: i32, car: Car)
    ensures
        match find_row(rows, id) {
            Some(j) => find_row(update_rows(rows, id, car), id) == Some(j) && update_rows(
                rows,
                id,
                car,
            )[j] == stored(car, id),
            None => find_row(update_rows(rows, id, car), id) is None && update_rows(rows, id, car)
                =~= rows,
        },
{
    lemma_update_find_from(rows, id, car, 0);
    lemma_find_row_some_iff(rows, id, 0);
    if find_row(rows, id) is None {
        lemma_find_row_none(rows, id, 0);
    }
}

/// The search for `id` lands on the same index before and after an update
/// of `id`.
proof fn lemma_update_find_from(rows: Seq<Car>, id: i32, car: Car, i: int)
    requires
        0 <= i,
    ensures
        match find_row_from(rows, id, i) {
            Some(j) => find_row_from(update_rows(rows, id, car), id, i) == Some(j),
            None => find_row_from(update_rows(rows, id, car), id, i) is None,
        },
    decreases rows.len() - i,
{
    if i < rows.len() {
        lemma_update_find_from(rows, id, car, i + 1);
    }
}

} // verus!
