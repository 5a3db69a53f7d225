use konfigura::revision::{commit_message, Action};

#[test]
fn add_message_follows_the_template() {
    assert_eq!(
        commit_message(&b"wifi".to_vec(), Action::Add),
        b"wifi: add config file".to_vec()
    );
}

#[test]
fn update_message_follows_the_template() {
    assert_eq!(
        commit_message(&b"wifi".to_vec(), Action::Update),
        b"wifi: update config file".to_vec()
    );
}
