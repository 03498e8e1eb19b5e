use tcp_hub::records::{EntryType, Page, UdpMessage};
use tcp_hub::sql::{is_valid_dbname, ColumnInfo, StringDB, User};

#[test]
fn constructors_keep_fields() {
    let u = User::new(7, "ann".to_string(), "pw".to_string(), "A".to_string());
    assert_eq!((u.id, u.username.as_str(), u.password.as_str(), u.nickname.as_str()), (7, "ann", "pw", "A"));
    assert_eq!(StringDB::new("db1".to_string()).name, "db1");
    let c = ColumnInfo::new("id".to_string(), "int".to_string());
    assert_eq!((c.column_name.as_str(), c.data_type.as_str()), ("id", "int"));
}

#[test]
fn dbname_rule() {
    assert!(is_valid_dbname("shop_2024-a"));
    assert!(!is_valid_dbname(""));
    assert!(!is_valid_dbname("a b"));
    assert!(!is_valid_dbname("db;drop"));
    assert!(!is_valid_dbname("\u{6570}\u{636e}"));
    assert!(is_valid_dbname(&"x".repeat(64)));
    assert!(!is_valid_dbname(&"x".repeat(65)));
}

#[test]
fn records_build() {
    let p = Page { data: vec![1, 2], total: 2, current_page: 1, page_size: 10, page_count: 1 };
    assert_eq!(p.data.len(), 2);
    assert_eq!(EntryType::File, EntryType::File);
    assert_ne!(EntryType::File, EntryType::Directory);
    let m = UdpMessage { content: "hi".to_string(), timestamp: None };
    assert_eq!(m.timestamp, None);
}
