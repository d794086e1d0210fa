use pledge::cache::store::cache_key_wire;
use pledge::cache::QueryTemplate;
use pledge::config::{CacheConfig, CacheSettings, Config, DatabaseConfig, ServerConfig};
use pledge::text::{push_decimal, push_hex};
use pledge::QueryMatcher;

fn config(queries: Vec<QueryTemplate>) -> Config {
    Config {
        database: DatabaseConfig {
            url: "postgres://localhost".to_string(),
            host: "localhost".to_string(),
            port: "5432".to_string(),
            user: "user".to_string(),
            password: "".to_string(),
            database: "db".to_string(),
        },
        queries,
        cache: CacheConfig {
            global_ttl: None,
            max_size_mib: None,
            cache_shards: None,
        },
        server: ServerConfig {
            port: 6432,
            https_port: None,
            tls_cert_path: None,
            tls_key_path: None,
        },
    }
}

fn template(sql: &str, ttl: Option<u64>) -> QueryTemplate {
    QueryTemplate {
        sql: sql.to_string(),
        ttl,
    }
}

#[test]
fn settings_have_defaults() {
    let settings = config(vec![]).cache.get_cache_settings();
    assert_eq!(
        settings,
        CacheSettings {
            global_ttl: 60,
            cache_size: 100,
            cache_shards: 16
        }
    );
    let settings = CacheConfig {
        global_ttl: Some(5),
        max_size_mib: Some(7),
        cache_shards: Some(255),
    }
    .get_cache_settings();
    assert_eq!(
        settings,
        CacheSettings {
            global_ttl: 5,
            cache_size: 7,
            cache_shards: 255
        }
    );
}

#[test]
fn address_joins_host_and_port() {
    assert_eq!(config(vec![]).database.clone().address(), "localhost:5432");
}

#[test]
fn last_template_counts() {
    let matcher = QueryMatcher::new(&config(vec![
        template("SELECT 1", Some(1)),
        template("SELECT 2", None),
        template("SELECT 1", Some(3)),
    ]));
    assert_eq!(matcher.find_template("SELECT 1").unwrap().ttl, Some(3));
    assert_eq!(matcher.find_template("SELECT 2").unwrap().ttl, None);
    assert!(matcher.find_template("SELECT 3").is_none());
    assert!(matcher.template_exists("SELECT 2"));
    assert!(!matcher.template_exists("select 2"));
}

#[test]
fn keys_tell_queries_apart() {
    assert_eq!(cache_key_wire("SELECT 1", &vec![]), "qSELECT 1");
    assert_eq!(
        cache_key_wire("SELECT $1", &vec![None, Some(vec![0x0f, 0xa0]), Some(vec![])]),
        "nv0fa0vqSELECT $1"
    );
    let keys = [
        cache_key_wire("q", &vec![]),
        cache_key_wire("", &vec![None]),
        cache_key_wire("", &vec![Some(vec![])]),
        cache_key_wire("", &vec![Some(vec![1]), Some(vec![2])]),
        cache_key_wire("", &vec![Some(vec![1, 2])]),
        cache_key_wire("", &vec![Some(vec![1, 2]), None]),
    ];
    for i in 0..keys.len() {
        for j in 0..keys.len() {
            assert_eq!(keys[i] == keys[j], i == j);
        }
    }
}

#[test]
fn numbers_and_bytes_as_text() {
    let mut text = String::from("n=");
    push_decimal(&mut text, 0);
    text.push(' ');
    push_decimal(&mut text, 10_203_040_506_070_809);
    text.push(' ');
    push_decimal(&mut text, u64::MAX);
    assert_eq!(text, "n=0 10203040506070809 18446744073709551615");
    let mut text = String::from("x");
    push_hex(&mut text, &(0u8..=255).collect());
    let expected: String = (0u8..=255).map(|b| format!("{:02x}", b)).collect();
    assert_eq!(text, format!("x{}", expected));
}
