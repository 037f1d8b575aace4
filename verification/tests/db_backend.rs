use vibe_monitor::db::{db_path, DB_FILE_NAME};

#[test]
fn db_path_is_the_database_file_in_the_data_directory() {
    assert_eq!(db_path("/tmp/vibe"), "/tmp/vibe/vibe-monitor.db");
    assert_eq!(db_path("/tmp/vibe/"), "/tmp/vibe/vibe-monitor.db");
    assert_eq!(DB_FILE_NAME, "vibe-monitor.db");
}

#[test]
fn db_path_of_an_empty_directory_is_the_bare_file_name() {
    assert_eq!(db_path(""), "vibe-monitor.db");
}
