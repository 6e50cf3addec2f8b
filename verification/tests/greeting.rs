use voice_echo::greeting::{select_greeting, select_greeting_for_hour, time_pool};

#[test]
fn greeting_contains_name() {
    let greeting = select_greeting_for_hour("TestBot", 10);
    assert!(
        greeting.contains("TestBot"),
        "greeting should contain entity name: {greeting}"
    );
}

#[test]
fn greeting_no_placeholder_leftover() {
    for hour in 0..24 {
        let greeting = select_greeting_for_hour("Echo", hour);
        assert!(
            !greeting.contains("{name}"),
            "placeholder not replaced at hour {hour}: {greeting}"
        );
    }
}

#[test]
fn greeting_never_empty() {
    for hour in 0..24 {
        let greeting = select_greeting_for_hour("X", hour);
        assert!(!greeting.is_empty(), "empty greeting at hour {hour}");
    }
}

#[test]
fn greeting_for_current_time() {
    let greeting = select_greeting("Echo");
    assert!(greeting.contains("Echo"));
    assert!(!greeting.contains("{name}"));
}

#[test]
fn time_pool_morning() {
    let pool = time_pool(8);
    assert!(pool
        .iter()
        .any(|g| g.contains("morning") || g.contains("Morning")));
}

#[test]
fn time_pool_afternoon() {
    let pool = time_pool(14);
    assert!(pool.iter().any(|g| g.contains("afternoon")));
}

#[test]
fn time_pool_evening() {
    let pool = time_pool(19);
    assert!(pool
        .iter()
        .any(|g| g.contains("evening") || g.contains("Evening")));
}

#[test]
fn time_pool_night() {
    let pool = time_pool(23);
    assert!(pool
        .iter()
        .any(|g| g.contains("late") || g.contains("midnight")));
}

#[test]
fn time_pool_boundaries() {
    // 4 AM = night, 5 AM = morning, 11 AM = morning, 12 PM = afternoon
    let night = vec![
        "Hey, it's late, but {name}'s here".to_string(),
        "{name} here, burning the midnight oil?".to_string(),
    ];
    let morning = vec![
        "Good morning, {name} here".to_string(),
        "Morning! It's {name}".to_string(),
    ];
    let afternoon = vec![
        "Good afternoon, it's {name}".to_string(),
        "Hey, good afternoon, {name} here".to_string(),
    ];
    let evening = vec![
        "Good evening, this is {name}".to_string(),
        "Evening! {name} here".to_string(),
    ];
    assert_eq!(time_pool(4), night);
    assert_eq!(time_pool(5), morning);
    assert_eq!(time_pool(11), morning);
    assert_eq!(time_pool(12), afternoon);
    assert_eq!(time_pool(16), afternoon);
    assert_eq!(time_pool(17), evening);
    assert_eq!(time_pool(20), evening);
    assert_eq!(time_pool(21), night);
}
