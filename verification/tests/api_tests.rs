use media_requests::api::{query_movie_request, user_agent};

#[test]
fn the_client_probe_says_how_building_went() {
    let probe = query_movie_request();
    match probe.client {
        Some(_) => assert_eq!(probe.message, "Client was built."),
        None => assert!(probe.message.starts_with("Failed to build client: ")),
    }
}

#[test]
fn the_user_agent_names_a_browser() {
    assert!(user_agent().starts_with("Mozilla/5.0 "));
    assert!(user_agent().ends_with("Safari/537.36"));
}
