use lazydb::mysql_version::{parse_version_triplet, MySqlFamily, MySqlServerInfo};

#[test]
fn parses_oracle_mysql_and_mariadb_prefix() {
    let mysql56 = MySqlServerInfo::parse("5.6.16-log").unwrap();
    assert_eq!(mysql56.family, MySqlFamily::OracleMySql);
    assert_eq!((mysql56.major, mysql56.minor, mysql56.patch), (5, 6, 16));
    assert!(mysql56.supports_catalog());

    let mysql57 = MySqlServerInfo::parse("5.7.44").unwrap();
    assert!(mysql57.supports_catalog());

    let mysql8012 = MySqlServerInfo::parse("8.0.12").unwrap();
    assert!(mysql8012.supports_catalog());

    let mysql8013 = MySqlServerInfo::parse("8.0.13").unwrap();
    assert!(mysql8013.supports_catalog());

    let commercial = MySqlServerInfo::parse("8.4.1-commercial").unwrap();
    assert_eq!((commercial.major, commercial.minor, commercial.patch), (8, 4, 1));

    let maria = MySqlServerInfo::parse("10.1.48-MariaDB").unwrap();
    assert_eq!(maria.family, MySqlFamily::MariaDb);
    assert!(maria.supports_catalog());

    let prefixed = MySqlServerInfo::parse("5.5.5-10.11.8-MariaDB").unwrap();
    assert_eq!(prefixed.family, MySqlFamily::MariaDb);
    assert_eq!((prefixed.major, prefixed.minor, prefixed.patch), (10, 11, 8));
    assert!(prefixed.supports_catalog());
}

#[test]
fn rejects_below_floor_and_garbage() {
    assert!(!MySqlServerInfo::parse("5.5.62").unwrap().supports_catalog());
    assert!(!MySqlServerInfo::parse("10.0.38-MariaDB").unwrap().supports_catalog());
    assert!(MySqlServerInfo::parse("not-a-version").is_none());
}

#[test]
fn version_triplet_reads_the_leading_numbers() {
    assert_eq!(parse_version_triplet("8.0.36-0ubuntu0.22.04.1"), Some((8, 0, 36)));
    assert_eq!(parse_version_triplet("8.0"), None);
    assert_eq!(parse_version_triplet("x.1.2"), None);
}

#[test]
fn catalog_floor_is_exactly_five_six_and_ten_one() {
    assert!(MySqlServerInfo::parse("5.6.0").unwrap().supports_catalog());
    assert!(!MySqlServerInfo::parse("5.5.99").unwrap().supports_catalog());
    assert!(MySqlServerInfo::parse("10.1.0-MariaDB").unwrap().supports_catalog());
    assert_eq!(MySqlServerInfo::parse("10.11.8-MariaDB").unwrap().triplet(), (10, 11, 8));
}
