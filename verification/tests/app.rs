use dynein::app::{
    exponential_plan, retrieve_dynein_file_path, retry_plans, Cache, Config, Context,
    DyneinFileType, ExponentialPlan, IndexSchema, IndexType, QueryConfig, RetryConfig,
    RetryConfigError, RetryDelay, RetrySetting, TableSchema,
};
use dynein::ddb::key::{Key, KeyType};
use dynein::util::Mode;

fn config2() -> Config {
    Config {
        using_region: Some(String::from("ap-northeast-1")),
        using_table: Some(String::from("cfgtbl")),
        using_port: Some(8000),
        query: QueryConfig { strict_mode: false },
        retry: Some(RetryConfig::default()),
    }
}

fn context_with(config: Option<Config>, region: Option<&str>, table: Option<&str>) -> Context {
    let mut cx = Context::empty();
    cx.config = config;
    cx.overwritten_region = region.map(String::from);
    cx.overwritten_table_name = table.map(String::from);
    cx
}

#[test]
fn test_context_functions() {
    let cx1 = Context::empty();
    assert_eq!(cx1.effective_region(), String::from("us-east-1"));
    assert_eq!(cx1.effective_table_name(), None);

    let mut cx2 = context_with(Some(config2()), None, None);
    cx2.retry = Some(retry_plans(&RetryConfig::default()).unwrap());
    assert_eq!(cx2.effective_region(), String::from("ap-northeast-1"));
    assert_eq!(cx2.effective_table_name(), Some(String::from("cfgtbl")));

    let cx3 = context_with(Some(config2()), Some("us-east-1"), Some("argtbl"));
    assert_eq!(cx3.effective_region(), String::from("us-east-1"));
    assert_eq!(cx3.effective_table_name(), Some(String::from("argtbl")));

    let cx4 = context_with(Some(config2()), Some("us-east-1"), None);
    assert_eq!(cx4.effective_region(), String::from("us-east-1"));
    assert_eq!(cx4.effective_table_name(), Some(String::from("cfgtbl")));

    let cx5 = context_with(Some(config2()), None, Some("argtbl"));
    assert_eq!(cx5.effective_region(), String::from("ap-northeast-1"));
    assert_eq!(cx5.effective_table_name(), Some(String::from("argtbl")));
}

fn secs(n: u64) -> RetryDelay {
    RetryDelay { secs: n, nanos: 0 }
}

#[test]
fn test_retry_setting_success() {
    let config1 = RetrySetting::default();
    let actual = exponential_plan(&config1).unwrap();
    assert_eq!(
        actual,
        ExponentialPlan { min_delay: secs(1), max_delay: None, max_times: Some(9) }
    );

    let config2 = RetrySetting {
        initial_backoff: Some(secs(1)),
        max_backoff: Some(secs(100)),
        max_attempts: Some(20),
    };
    let actual = exponential_plan(&config2).unwrap();
    assert_eq!(
        actual,
        ExponentialPlan { min_delay: secs(1), max_delay: Some(secs(100)), max_times: Some(19) }
    );
}

#[test]
fn test_retry_setting_error() {
    let config = RetrySetting { max_attempts: Some(0), ..RetrySetting::default() };
    match exponential_plan(&config).unwrap_err() {
        RetryConfigError::MaxAttempts => {}
        _ => unreachable!("unexpected error"),
    }

    let config = RetrySetting {
        max_backoff: Some(RetryDelay { secs: 0, nanos: 0 }),
        ..RetrySetting::default()
    };
    match exponential_plan(&config).unwrap_err() {
        RetryConfigError::MaxBackoff => {}
        _ => unreachable!("unexpected error"),
    }
}

#[test]
fn retry_config_reports_the_first_bad_setting() {
    let cfg = RetryConfig {
        default: RetrySetting::default(),
        batch_write_item: Some(RetrySetting { max_attempts: Some(0), ..RetrySetting::default() }),
    };
    assert_eq!(retry_plans(&cfg), Err(RetryConfigError::MaxAttempts));
    assert_eq!(
        RetryConfigError::MaxBackoff.to_string(),
        String::from("max_backoff should be greater than zero")
    );
    let custom = RetrySetting { initial_backoff: Some(secs(3)), max_backoff: None, max_attempts: None };
    assert_eq!(
        exponential_plan(&custom),
        Ok(ExponentialPlan { min_delay: secs(3), max_delay: None, max_times: None })
    );
}

fn schema(name: &str) -> TableSchema {
    TableSchema {
        region: String::from("ap-northeast-1"),
        name: String::from(name),
        pk: Key { name: String::from("id"), kind: KeyType::S },
        sk: None,
        indexes: Some(vec![IndexSchema {
            name: String::from("gsi"),
            kind: IndexType::Gsi,
            pk: Key { name: String::from("g"), kind: KeyType::N },
            sk: None,
        }]),
        mode: Mode::Provisioned,
    }
}

#[test]
fn cache_gives_back_what_was_stored() {
    let mut cache = Cache { tables: None };
    cache.insert_table_schema("ap-northeast-1", schema("cfgtbl"));
    cache.insert_table_schema("ap-northeast-1", schema("other"));
    let mut cx = context_with(Some(config2()), None, None);
    cx.cache = Some(cache);
    assert_eq!(cx.effective_cache_key(), Some(String::from("ap-northeast-1/cfgtbl")));
    assert_eq!(cx.cached_using_table_schema(), Some(schema("cfgtbl")));
    let cx = cx.with_table("missing");
    assert_eq!(cx.cached_using_table_schema(), None);
}

#[test]
fn cache_replaces_a_schema_under_the_same_key() {
    let mut cache = Cache { tables: None };
    cache.insert_table_schema("r", schema("t"));
    let mut changed = schema("t");
    changed.mode = Mode::OnDemand;
    cache.insert_table_schema("r", changed);
    let tables = cache.tables.unwrap();
    assert_eq!(tables.len(), 1);
    assert_eq!(tables[0].0, String::from("r/t"));
    assert_eq!(tables[0].1.mode, Mode::OnDemand);
}

#[test]
fn context_defaults_and_overrides() {
    let cx = context_with(Some(config2()), None, None);
    assert_eq!(cx.effective_port(), 8000);
    assert!(!cx.should_strict_for_query());
    assert!(!cx.is_local());
    let mut cx = cx.with_region("local");
    cx.overwritten_port = Some(8001);
    cx.should_strict_for_query = Some(true);
    assert!(cx.is_local());
    assert_eq!(cx.effective_port(), 8001);
    assert!(cx.should_strict_for_query());
    assert_eq!(
        retrieve_dynein_file_path("/home/u/.dynein", DyneinFileType::CacheFile),
        String::from("/home/u/.dynein/cache.yml")
    );
    assert_eq!(
        dynein::app::region_from_str(Some(String::from("local")), Some(9000)),
        Some(String::from("local"))
    );
}
