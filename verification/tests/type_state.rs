use fp_study::type_state::{Door, Request, User, UserBuilder};

#[test]
fn test_door_state_machine() {
    let door = Door::new("Front Door");
    // door.open() // コンパイルエラー: Locked 状態では open() できない
    let door = door.unlock();
    assert_eq!(door.open(), "Front Door is open!");
    let _locked = door.lock();
    // _locked.open() // コンパイルエラー: 再びロックされた
}

#[test]
fn test_builder_with_type_state() {
    let user = UserBuilder::new()
        .email("alice@example.com")
        .name("Alice")
        .build();

    assert_eq!(user, User {
        email: "alice@example.com".to_string(),
        name: "Alice".to_string(),
    });
}

#[test]
fn test_builder_order_independence() {
    // name → email の順でも build() できる
    let user = UserBuilder::new()
        .name("Bob")
        .email("bob@example.com")
        .build();

    assert_eq!(user.name, "Bob");
    assert_eq!(user.email, "bob@example.com");
}

#[test]
fn test_request_state_machine() {
    let request = Request::new("https://example.com/api")
        .with_body(r#"{"key": "value"}"#)
        .send();

    // request.response() // コンパイルエラー: Pending 状態では取得できない

    let completed = request.receive("200 OK");
    assert_eq!(completed.response(), "200 OK");
    assert_eq!(completed.url(), "https://example.com/api");
}
