use fp_study::lenses::{
    address_city_lens, circle_radius, compose, compose_update, person_address_lens, person_age_lens,
    update_circle_radius, Address, Person, Shape,
};

fn sample_person() -> Person {
    Person {
        name: "Alice".to_string(),
        age: 30,
        address: Address {
            city: "Tokyo".to_string(),
            zip: "100-0001".to_string(),
        },
    }
}

#[test]
fn test_lens_view() {
    let person = sample_person();
    let addr_lens = person_address_lens();
    let city_lens = address_city_lens();

    let address = addr_lens.view(&person);
    let city = city_lens.view(&address);
    assert_eq!(city, "Tokyo");
}

#[test]
fn test_lens_update() {
    let person = sample_person();
    let addr_lens = person_address_lens();
    let city_lens = address_city_lens();

    let new_address = city_lens.update(addr_lens.view(&person), "Osaka".to_string());
    let updated = addr_lens.update(person, new_address);

    assert_eq!(updated.address.city, "Osaka");
    assert_eq!(updated.address.zip, "100-0001"); // zip は変わらない
    assert_eq!(updated.name, "Alice");            // name も変わらない
}

#[test]
fn test_lens_modify() {
    let person = sample_person();
    let age_lens = person_age_lens();

    let updated = age_lens.modify(person, |age| age + 1);
    assert_eq!(updated.age, 31);
}

#[test]
fn test_lens_compose() {
    let person = sample_person();
    let addr_lens = person_address_lens();
    let city_lens = address_city_lens();

    // 合成した get
    let get_city = compose(&addr_lens, &city_lens);
    assert_eq!(get_city(&person), "Tokyo");

    // 合成した update
    let updated = compose_update(&addr_lens, &city_lens, person, "Kyoto".to_string());
    assert_eq!(updated.address.city, "Kyoto");
}

#[test]
fn test_immutability() {
    // 元の値が変わらないことを確認
    let person = sample_person();
    let age_lens = person_age_lens();
    let updated = age_lens.update(person.clone(), 99);

    assert_eq!(person.age, 30);   // 元は変わらない
    assert_eq!(updated.age, 99);  // 新しい値のみ変わる
}

#[test]
fn test_lens_get_put_law() {
    let age = person_age_lens();
    let p = age.update(sample_person(), 5);
    assert_eq!(age.view(&p), 5);
    let same = age.update(sample_person(), age.view(&sample_person()));
    assert_eq!(same, sample_person());
    let twice = age.update(age.update(sample_person(), 1), 2);
    assert_eq!(twice, age.update(sample_person(), 2));
}

#[test]
fn test_city_lens_keeps_zip() {
    let city = address_city_lens();
    let a = city.update(sample_person().address, "Nara".to_string());
    assert_eq!(a.zip, "100-0001");
    assert_eq!(city.view(&a), "Nara");
}

#[test]
fn test_compose_update_then_view() {
    let addr = person_address_lens();
    let city = address_city_lens();
    let updated = compose_update(&addr, &city, sample_person(), "Sapporo".to_string());
    let get_city = compose(&addr, &city);
    assert_eq!(get_city(&updated), "Sapporo");
    assert_eq!(updated.age, 30);
}

#[test]
fn test_modify_address() {
    let addr = person_address_lens();
    let p = addr.modify(sample_person(), |a| Address { zip: "000".to_string(), ..a });
    assert_eq!(p.address.zip, "000");
    assert_eq!(p.address.city, "Tokyo");
}

#[test]
fn test_prism_preview() {
    let shapes = vec![
        Shape::Circle { radius: 5.0 },
        Shape::Rectangle { width: 3.0, height: 4.0 },
        Shape::Circle { radius: 2.0 },
    ];
    let radii: Vec<f64> = shapes.iter().filter_map(circle_radius).collect();
    assert_eq!(radii, vec![5.0, 2.0]);
}

#[test]
fn test_prism_update() {
    let circle = Shape::Circle { radius: 3.0 };
    let rect = Shape::Rectangle { width: 2.0, height: 5.0 };
    let doubled_circle = update_circle_radius(circle, |r| r * 2.0);
    let unchanged_rect = update_circle_radius(rect.clone(), |r| r * 2.0);
    assert!(matches!(doubled_circle, Shape::Circle { radius } if radius == 6.0));
    assert!(matches!(unchanged_rect, Shape::Rectangle { width: 2.0, height: 5.0 }));
}

#[test]
fn test_prism_laws_on_integers() {
    let circle: Shape<i32> = Shape::Circle { radius: 4 };
    let updated = update_circle_radius(circle, |r| r + 1);
    assert_eq!(circle_radius(&updated), Some(5));
    let rect: Shape<i32> = Shape::Rectangle { width: 1, height: 2 };
    assert_eq!(circle_radius(&rect), None);
    let same = update_circle_radius(rect, |r| r + 1);
    assert!(matches!(same, Shape::Rectangle { width: 1, height: 2 }));
}
