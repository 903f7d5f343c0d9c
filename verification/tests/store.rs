use car_service::store::Store;
use car_service::vehicle::Car;

fn car(brand: &str, model: &str, year: i32, price: &str) -> Car {
    Car {
        id: None,
        brand: brand.to_string(),
        model: model.to_string(),
        year,
        price: price.to_string(),
    }
}

#[test]
fn create_then_get_one_round_trip() {
    let mut s = Store::new();
    let id = s.create(car("Toyota", "Corolla", 2020, "18000.0"));
    assert_eq!(id, 1);
    let row = s.get_one(id).expect("created row must be found");
    assert_eq!(row.id, Some(id));
    assert_eq!(row.brand, "Toyota");
    assert_eq!(row.model, "Corolla");
    assert_eq!(row.year, 2020);
    assert_eq!(row.price, "18000.0");
}

#[test]
fn get_one_absent_is_none() {
    let mut s = Store::new();
    assert!(s.get_one(5).is_none());
    let id = s.create(car("Honda", "Civic", 2019, "15000.0"));
    assert!(s.get_one(id + 1).is_none());
    assert!(s.get_one(0).is_none());
    assert!(s.get_one(-1).is_none());
}

#[test]
fn get_all_returns_exactly_the_rows() {
    let mut s = Store::new();
    assert_eq!(s.get_all().len(), 0);
    let a = s.create(car("Toyota", "Corolla", 2020, "18000.0"));
    let b = s.create(car("Honda", "Civic", 2019, "15000.0"));
    let c = s.create(car("Ford", "Focus", 2018, "12000.5"));
    let all = s.get_all();
    assert_eq!(all.len(), 3);
    let ids: Vec<Option<i32>> = all.iter().map(|r| r.id).collect();
    assert!(ids.contains(&Some(a)));
    assert!(ids.contains(&Some(b)));
    assert!(ids.contains(&Some(c)));
}

#[test]
fn delete_present_removes_and_reports_one() {
    let mut s = Store::new();
    let a = s.create(car("Toyota", "Corolla", 2020, "18000.0"));
    let b = s.create(car("Honda", "Civic", 2019, "15000.0"));
    assert_eq!(s.delete(a), 1);
    assert!(s.get_one(a).is_none());
    let all = s.get_all();
    assert_eq!(all.len(), 1);
    assert_eq!(all[0].id, Some(b));
}

#[test]
fn delete_absent_reports_zero_and_changes_nothing() {
    let mut s = Store::new();
    let a = s.create(car("Toyota", "Corolla", 2020, "18000.0"));
    assert_eq!(s.delete(a + 7), 0);
    assert_eq!(s.get_all().len(), 1);
    assert!(s.get_one(a).is_some());
}

#[test]
fn update_present_is_reflected() {
    let mut s = Store::new();
    let a = s.create(car("Toyota", "Corolla", 2020, "18000.0"));
    s.update(a, car("Toyota", "Camry", 2021, "25000.0"));
    let row = s.get_one(a).expect("updated row must still be found");
    assert_eq!(row.id, Some(a));
    assert_eq!(row.brand, "Toyota");
    assert_eq!(row.model, "Camry");
    assert_eq!(row.year, 2021);
    assert_eq!(row.price, "25000.0");
}

#[test]
fn update_absent_succeeds_and_creates_no_row() {
    let mut s = Store::new();
    let a = s.create(car("Toyota", "Corolla", 2020, "18000.0"));
    s.update(a + 5, car("Honda", "Civic", 2019, "15000.0"));
    let all = s.get_all();
    assert_eq!(all.len(), 1);
    assert_eq!(all[0].model, "Corolla");
}

#[test]
fn ids_are_not_reused_after_delete() {
    let mut s = Store::new();
    let a = s.create(car("Toyota", "Corolla", 2020, "18000.0"));
    assert_eq!(s.delete(a), 1);
    let b = s.create(car("Honda", "Civic", 2019, "15000.0"));
    assert_ne!(a, b);
    assert!(s.get_one(a).is_none());
    assert!(s.get_one(b).is_some());
}
