use konfigura::naming::{entry_file_name, stem_of_path, strip_config_suffix};

#[test]
fn stem_strips_directory_and_extension() {
    assert_eq!(stem_of_path(&b"/tmp/foo.config".to_vec()), b"foo".to_vec());
    assert_eq!(stem_of_path(&b"a/b/c.txt".to_vec()), b"c".to_vec());
}

#[test]
fn stem_of_bare_name_is_the_name() {
    assert_eq!(stem_of_path(&b"foo".to_vec()), b"foo".to_vec());
}

#[test]
fn stem_keeps_hidden_file_names_whole() {
    assert_eq!(stem_of_path(&b".bashrc".to_vec()), b".bashrc".to_vec());
    assert_eq!(stem_of_path(&b"/home/u/.bashrc".to_vec()), b".bashrc".to_vec());
}

#[test]
fn stem_strips_only_the_last_extension() {
    assert_eq!(stem_of_path(&b"dir/archive.tar.gz".to_vec()), b"archive.tar".to_vec());
}

#[test]
fn entry_file_name_appends_the_suffix() {
    assert_eq!(entry_file_name(&b"wifi".to_vec()), b"wifi.config".to_vec());
}

#[test]
fn strip_recovers_the_entry_name() {
    assert_eq!(
        strip_config_suffix(&b"wifi.config".to_vec()),
        Some(b"wifi".to_vec())
    );
}

#[test]
fn strip_refuses_other_file_names() {
    assert_eq!(strip_config_suffix(&b"wifi.conf".to_vec()), None);
    assert_eq!(strip_config_suffix(&b"notes.txt".to_vec()), None);
    assert_eq!(strip_config_suffix(&b"config".to_vec()), None);
}

#[test]
fn strip_refuses_a_bare_suffix() {
    assert_eq!(strip_config_suffix(&b".config".to_vec()), None);
}

#[test]
fn file_name_round_trips_through_strip() {
    let file = entry_file_name(&b"kernel-6.8".to_vec());
    assert_eq!(strip_config_suffix(&file), Some(b"kernel-6.8".to_vec()));
}
