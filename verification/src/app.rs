//! The settings of dynein: table schemas kept in the cache, the config, retry settings,
//! and the context in which a command runs.
use vstd::prelude::*;
use crate::ddb::key::Key;
use crate::ddb::table::{lemma_describes_same, schema_describes, table_describable, table_schema_of, TableDescription};
use crate::text::{push_char, push_str};
use crate::util::Mode;

verus! {

/// The files that dynein keeps its settings in.
#[derive(Debug, Clone, Copy, PartialEq, Eq, Structural)]
pub enum DyneinFileType {
    ConfigFile,
    CacheFile,
}

/// The name of a settings file.
pub open spec fn file_name_of(file_type: DyneinFileType) -> Seq<char> {
    match file_type {
        DyneinFileType::ConfigFile => "config.yml"@,
        DyneinFileType::CacheFile => "cache.yml"@,
    }
}

/// The path of a settings file in the dynein directory `dir`.
pub fn retrieve_dynein_file_path(dir: &str, file_type: DyneinFileType) -> (r: String)
    ensures
        r@ == dir@ + seq!['/'] + file_name_of(file_type),
{
    let mut r = String::from_str(dir);
    push_char(&mut r, '/');
    match file_type {
        DyneinFileType::ConfigFile => push_str(&mut r, "config.yml"),
        DyneinFileType::CacheFile => push_str(&mut r, "cache.yml"),
    }
    r
}

/// The type of a secondary index.
#[derive(Debug, Clone, Copy, PartialEq, Eq, Structural)]
pub enum IndexType {
    Gsi,
    Lsi,
}

/// The key schema of a secondary index.
#[derive(Debug, Clone, PartialEq, Eq)]
pub struct IndexSchema {
    pub name: String,
    /// Type of index. i.e. GSI (Global Secondary Index) or LSI (Local Secondary Index).
    pub kind: IndexType,
    pub pk: Key,
    pub sk: Option<Key>,
}

/// What dynein knows of a table: where it is, its keys, indexes and capacity mode.
#[derive(Debug, Clone, PartialEq, Eq)]
pub struct TableSchema {
    pub region: String,
    pub name: String,
    pub pk: Key,
    pub sk: Option<Key>,
    pub indexes: Option<Vec<IndexSchema>>,
    pub mode: Mode,
}

pub open spec fn same_key(a: Key, b: Key) -> bool {
    a.name@ == b.name@ && a.kind == b.kind
}

pub open spec fn same_opt_key(a: Option<Key>, b: Option<Key>) -> bool {
    match (a, b) {
        (Some(x), Some(y)) => same_key(x, y),
        (None, None) => true,
        _ => false,
    }
}

pub open spec fn same_index(a: IndexSchema, b: IndexSchema) -> bool {
    a.name@ == b.name@ && a.kind == b.kind && same_key(a.pk, b.pk) && same_opt_key(a.sk, b.sk)
}

pub open spec fn same_indexes(a: Seq<IndexSchema>, b: Seq<IndexSchema>) -> bool {
    a.len() == b.len() && forall|i: int| 0 <= i < a.len() ==> #[trigger] same_index(a[i], b[i])
}

/// Whether two schemas describe the same table alike.
pub open spec fn same_schema(a: TableSchema, b: TableSchema) -> bool {
    &&& a.region@ == b.region@
    &&& a.name@ == b.name@
    &&& same_key(a.pk, b.pk)
    &&& same_opt_key(a.sk, b.sk)
    &&& match (a.indexes, b.indexes) {
        (Some(x), Some(y)) => same_indexes(x@, y@),
        (None, None) => true,
        _ => false,
    }
    &&& a.mode == b.mode
}

fn copy_opt_key(k: &Option<Key>) -> (r: Option<Key>)
    ensures
        same_opt_key(*k, r),
{
    match k {
        Some(x) => Some(x.copy()),
        None => None,
    }
}

impl IndexSchema {
    /// A copy of the index schema.
    pub fn copy(&self) -> (r: IndexSchema)
        ensures
            same_index(*self, r),
    {
        IndexSchema {
            name: self.name.clone(),
            kind: self.kind,
            pk: self.pk.copy(),
            sk: copy_opt_key(&self.sk),
        }
    }
}

impl TableSchema {
    /// A copy of the table schema.
    pub fn copy(&self) -> (r: TableSchema)
        ensures
            same_schema(*self, r),
    {
        let indexes = match &self.indexes {
            Some(xs) => {
                let mut v: Vec<IndexSchema> = Vec::new();
                let mut i: usize = 0;
                while i < xs.len()
                    invariant
                        i <= xs.len(),
                        v.len() == i,
                        forall|j: int| 0 <= j < i ==> #[trigger] same_index(xs@[j], v@[j]),
                    decreases xs.len() - i,
                {
                    v.push(xs[i].copy());
                    i = i + 1;
                }
                Some(v)
            },
            None => None,
        };
        TableSchema {
            region: self.region.clone(),
            name: self.name.clone(),
            pk: self.pk.copy(),
            sk: copy_opt_key(&self.sk),
            indexes,
            mode: self.mode,
        }
    }
}

/// Messages that dynein shows.
#[derive(Debug, Clone, Copy, PartialEq, Eq, Structural)]
pub enum Messages {
    NoEffectiveTable,
}

impl Messages {
    /// The text of the message.
    pub fn to_string(&self) -> (r: String)
        ensures
            r@ == "
To execute the command you must specify target table in one of following ways:
    * [RECOMMENDED] $ dy use <your_table> ... save target table to use.
    * Or, optionally you can pass --region and --table options to specify target for your commands. Refer --help for more information.
To find all tables in all regions, try:
    * $ dy ls --all-regions"@,
    {
        String::from_str(
            "
To execute the command you must specify target table in one of following ways:
    * [RECOMMENDED] $ dy use <your_table> ... save target table to use.
    * Or, optionally you can pass --region and --table options to specify target for your commands. Refer --help for more information.
To find all tables in all regions, try:
    * $ dy ls --all-regions",
        )
    }
}

/// A length of time, as whole seconds and nanoseconds.
#[derive(Debug, Clone, Copy, PartialEq, Eq, Structural)]
pub struct RetryDelay {
    pub secs: u64,
    pub nanos: u32,
}

/// How to retry a kind of API call.
#[derive(Debug, Clone, Copy, PartialEq, Eq, Structural)]
pub struct RetrySetting {
    pub initial_backoff: Option<RetryDelay>,
    pub max_backoff: Option<RetryDelay>,
    pub max_attempts: Option<u32>,
}

impl RetrySetting {
    /// No backoff bounds, and up to 10 attempts.
    pub fn default() -> (r: RetrySetting)
        ensures
            r.initial_backoff is None,
            r.max_backoff is None,
            r.max_attempts == Some(10u32),
    {
        RetrySetting { initial_backoff: None, max_backoff: None, max_attempts: Some(10) }
    }
}

/// The retry settings of the config.
#[derive(Debug, Clone, Copy, PartialEq, Eq, Structural)]
pub struct RetryConfig {
    pub default: RetrySetting,
    pub batch_write_item: Option<RetrySetting>,
}

impl RetryConfig {
    /// The default setting for every call.
    pub fn default() -> (r: RetryConfig)
        ensures
            r.default.initial_backoff is None,
            r.default.max_backoff is None,
            r.default.max_attempts == Some(10u32),
            r.batch_write_item is None,
    {
        RetryConfig { default: RetrySetting::default(), batch_write_item: None }
    }
}

/// A retry setting that cannot be used.
#[derive(Debug, Clone, Copy, PartialEq, Eq, Structural)]
pub enum RetryConfigError {
    MaxAttempts,
    MaxBackoff,
}

impl RetryConfigError {
    /// The message of the error.
    pub fn to_string(&self) -> (r: String)
        ensures
            r@ == match self {
                RetryConfigError::MaxAttempts => "max_attempts should be greater than zero"@,
                RetryConfigError::MaxBackoff => "max_backoff should be greater than zero"@,
            },
    {
        match self {
            RetryConfigError::MaxAttempts => String::from_str(
                "max_attempts should be greater than zero",
            ),
            RetryConfigError::MaxBackoff => String::from_str("max_backoff should be greater than zero"),
        }
    }
}

/// The parameters of an exponential backoff with jitter and factor 2: the first delay,
/// the largest delay and the number of retries, where they are bounded.
#[derive(Debug, Clone, Copy, PartialEq, Eq, Structural)]
pub struct ExponentialPlan {
    pub min_delay: RetryDelay,
    pub max_delay: Option<RetryDelay>,
    pub max_times: Option<usize>,
}

/// The backoff of a retry setting: at least one attempt and a positive largest delay
/// are required; the first delay is one second unless the setting gives it.
pub fn exponential_plan(value: &RetrySetting) -> (r: Result<ExponentialPlan, RetryConfigError>)
    ensures
        match r {
            Ok(p) => {
                &&& value.max_attempts != Some(0u32)
                &&& !(value.max_backoff matches Some(d) && d.secs == 0 && d.nanos == 0)
                &&& p.max_times == match value.max_attempts {
                    Some(n) => Some((n - 1) as usize),
                    None => None,
                }
                &&& p.max_delay == value.max_backoff
                &&& p.min_delay == match value.initial_backoff {
                    Some(d) => d,
                    None => RetryDelay { secs: 1, nanos: 0 },
                }
            },
            Err(RetryConfigError::MaxAttempts) => value.max_attempts == Some(0u32),
            Err(RetryConfigError::MaxBackoff) => value.max_attempts != Some(0u32) && (
            value.max_backoff matches Some(d) && d.secs == 0 && d.nanos == 0),
        },
{
    let mut plan = ExponentialPlan {
        min_delay: RetryDelay { secs: 1, nanos: 0 },
        max_delay: None,
        max_times: None,
    };
    if let Some(max_attempts) = value.max_attempts {
        if max_attempts == 0 {
            return Err(RetryConfigError::MaxAttempts);
        }
        plan.max_times = Some((max_attempts - 1) as usize);
    }
    if let Some(max_backoff) = value.max_backoff {
        if max_backoff.secs == 0 && max_backoff.nanos == 0 {
            return Err(RetryConfigError::MaxBackoff);
        }
        plan.max_delay = Some(max_backoff);
    }
    if let Some(initial_backoff) = value.initial_backoff {
        plan.min_delay = initial_backoff;
    }
    Ok(plan)
}

/// The backoffs of the retry config: the default one, and the one for BatchWriteItem.
#[derive(Debug, Clone, Copy, PartialEq, Eq, Structural)]
pub struct RetryPlans {
    pub default: ExponentialPlan,
    pub batch_write_item: Option<ExponentialPlan>,
}

/// The backoffs of a retry config, or the error of the first setting that cannot be used.
pub fn retry_plans(value: &RetryConfig) -> (r: Result<RetryPlans, RetryConfigError>)
    ensures
        match r {
            Ok(p) => exponential_plan_ok(value.default, p.default) && match value.batch_write_item {
                Some(b) => p.batch_write_item matches Some(q) && exponential_plan_ok(b, q),
                None => p.batch_write_item is None,
            },
            Err(e) => retry_config_err(*value) == Some(e),
        },
{
    let default = match exponential_plan(&value.default) {
        Ok(p) => p,
        Err(e) => {
            return Err(e);
        },
    };
    let batch_write_item = match &value.batch_write_item {
        Some(v) => match exponential_plan(v) {
            Ok(p) => Some(p),
            Err(e) => {
                return Err(e);
            },
        },
        None => None,
    };
    Ok(RetryPlans { default, batch_write_item })
}

/// The error of a retry setting, if it has one.
pub open spec fn exponential_plan_err(v: RetrySetting) -> Option<RetryConfigError> {
    if v.max_attempts == Some(0u32) {
        Some(RetryConfigError::MaxAttempts)
    } else if v.max_backoff matches Some(d) && d.secs == 0 && d.nanos == 0 {
        Some(RetryConfigError::MaxBackoff)
    } else {
        None
    }
}

/// The error of a retry config: that of its default setting, else that of its setting
/// for BatchWriteItem.
pub open spec fn retry_config_err(v: RetryConfig) -> Option<RetryConfigError> {
    match exponential_plan_err(v.default) {
        Some(e) => Some(e),
        None => match v.batch_write_item {
            Some(b) => exponential_plan_err(b),
            None => None,
        },
    }
}

/// Whether `p` is the backoff of the setting `v`.
pub open spec fn exponential_plan_ok(v: RetrySetting, p: ExponentialPlan) -> bool {
    &&& exponential_plan_err(v) is None
    &&& p.max_times == match v.max_attempts {
        Some(n) => Some((n - 1) as usize),
        None => None,
    }
    &&& p.max_delay == v.max_backoff
    &&& p.min_delay == match v.initial_backoff {
        Some(d) => d,
        None => RetryDelay { secs: 1, nanos: 0 },
    }
}

/// Query settings of the config.
#[derive(Debug, Clone, Copy, PartialEq, Eq, Structural)]
pub struct QueryConfig {
    pub strict_mode: bool,
}

/// The config: the table in use, and settings.
#[derive(Debug, Clone, PartialEq, Eq)]
pub struct Config {
    pub using_region: Option<String>,
    pub using_table: Option<String>,
    pub using_port: Option<u32>,
    pub query: QueryConfig,
    pub retry: Option<RetryConfig>,
}

/// The cache: schemas of tables, each under the key `<region>/<table name>`; a key
/// occurs once.
#[derive(Debug, Clone, PartialEq, Eq)]
pub struct Cache {
    pub tables: Option<Vec<(String, TableSchema)>>,
}

/// An error in the content of the config.
#[derive(Debug, Clone, Copy, PartialEq, Eq, Structural)]
pub enum DyneinConfigContentError {
    RetryConfig(RetryConfigError),
}

/// The index of the first table of `tables` stored under `key`, or -1.
pub open spec fn table_index(tables: Seq<(String, TableSchema)>, key: Seq<char>) -> int
    decreases tables.len(),
{
    if tables.len() == 0 {
        -1
    } else if table_index(tables.drop_last(), key) >= 0 {
        table_index(tables.drop_last(), key)
    } else if tables.last().0@ == key {
        tables.len() - 1
    } else {
        -1
    }
}

proof fn lemma_table_index_step(tables: Seq<(String, TableSchema)>, key: Seq<char>, i: int)
    requires
        0 <= i < tables.len(),
        table_index(tables.take(i), key) == -1,
    ensures
        tables[i].0@ == key ==> table_index(tables.take(i + 1), key) == i,
        tables[i].0@ != key ==> table_index(tables.take(i + 1), key) == -1,
{
    assert(tables.take(i + 1).drop_last() =~= tables.take(i));
}

proof fn lemma_table_index_prefix(tables: Seq<(String, TableSchema)>, key: Seq<char>, i: int)
    requires
        0 <= i <= tables.len(),
        table_index(tables.take(i), key) >= 0,
    ensures
        table_index(tables, key) == table_index(tables.take(i), key),
    decreases tables.len() - i,
{
    if i < tables.len() {
        assert(tables.take(i + 1).drop_last() =~= tables.take(i));
        lemma_table_index_prefix(tables, key, i + 1);
    } else {
        assert(tables.take(i) =~= tables);
    }
}

/// The position of the table stored under `key`.
fn find_table(tables: &Vec<(String, TableSchema)>, key: &String) -> (r: Option<usize>)
    ensures
        match r {
            Some(i) => i == table_index(tables@, key@) && i < tables.len(),
            None => table_index(tables@, key@) == -1,
        },
{
    let mut i: usize = 0;
    assert(tables@.take(0) =~= Seq::<(String, TableSchema)>::empty());
    while i < tables.len()
        invariant
            i <= tables.len(),
            table_index(tables@.take(i as int), key@) == -1,
        decreases tables.len() - i,
    {
        proof {
            lemma_table_index_step(tables@, key@, i as int);
        }
        if tables[i].0 == *key {
            proof {
                lemma_table_index_prefix(tables@, key@, i + 1);
            }
            return Some(i);
        }
        i = i + 1;
    }
    assert(tables@.take(tables.len() as int) =~= tables@);
    None
}

/// The key under which the cache keeps a table: `<region>/<table name>`.
pub open spec fn cache_key_text(region: Seq<char>, table: Seq<char>) -> Seq<char> {
    region + seq!['/'] + table
}

/// `<region>/<table name>`.
fn cache_key(region: &str, table: &str) -> (r: String)
    ensures
        r@ == cache_key_text(region@, table@),
{
    let mut r = String::from_str(region);
    push_char(&mut r, '/');
    push_str(&mut r, table);
    r
}

impl Cache {
    /// Stores the schema of a table of `region` under `<region>/<table name>`, in place of
    /// a schema stored under that key before.
    pub fn insert_table_schema(&mut self, region: &str, schema: TableSchema)
        ensures
            final(self).tables matches Some(ts) && {
                let key = cache_key_text(region@, schema.name@);
                let before = match old(self).tables {
                    Some(t) => t@,
                    None => Seq::empty(),
                };
                let k = table_index(before, key);
                &&& k >= 0 ==> ts@ == before.update(k, ts@[k]) && ts@[k].0@ == key && same_schema(
                    schema,
                    ts@[k].1,
                )
                &&& k < 0 ==> ts@.len() == before.len() + 1 && ts@.drop_last() == before && ts@.last().0@ == key && same_schema(
                    schema,
                    ts@.last().1,
                )
            },
    {
        let key = cache_key(region, schema.name.as_str());
        let ghost sch = schema;
        let mut tables = match self.tables.take() {
            Some(t) => t,
            None => Vec::new(),
        };
        let ghost before = tables@;
        let copy = schema.copy();
        match find_table(&tables, &key) {
            Some(i) => {
                tables.set(i, (key, copy));
                assert(tables@ =~= before.update(i as int, tables@[i as int]));
            },
            None => {
                tables.push((key, copy));
                assert(tables@.drop_last() =~= before);
            },
        }
        self.tables = Some(tables);
    }
}

/// The tables of a cache; none when it has none.
pub open spec fn cached_tables(c: Cache) -> Seq<(String, TableSchema)> {
    match c.tables {
        Some(t) => t@,
        None => Seq::empty(),
    }
}

pub open spec fn same_entry(a: (String, TableSchema), b: (String, TableSchema)) -> bool {
    a.0@ == b.0@ && same_schema(a.1, b.1)
}

/// Whether two lists of cached tables hold the same keys and alike schemas, in order.
pub open spec fn same_tables(a: Seq<(String, TableSchema)>, b: Seq<(String, TableSchema)>) -> bool {
    a.len() == b.len() && forall|i: int| 0 <= i < a.len() ==> #[trigger] same_entry(a[i], b[i])
}

proof fn lemma_same_tables_index(a: Seq<(String, TableSchema)>, b: Seq<(String, TableSchema)>, key: Seq<char>)
    requires
        same_tables(a, b),
    ensures
        table_index(a, key) == table_index(b, key),
    decreases a.len(),
{
    if a.len() > 0 {
        assert(same_entry(a[a.len() - 1], b[b.len() - 1]));
        assert forall|i: int| 0 <= i < a.len() - 1 implies #[trigger] same_entry(a.drop_last()[i], b.drop_last()[i]) by {
            assert(same_entry(a[i], b[i]));
        }
        lemma_same_tables_index(a.drop_last(), b.drop_last(), key);
    }
}

fn copy_tables(t: &Vec<(String, TableSchema)>) -> (r: Vec<(String, TableSchema)>)
    ensures
        same_tables(t@, r@),
{
    let mut out: Vec<(String, TableSchema)> = Vec::new();
    let mut i: usize = 0;
    while i < t.len()
        invariant
            i <= t.len(),
            out.len() == i,
            forall|j: int| 0 <= j < i ==> #[trigger] same_entry(t@[j], out@[j]),
        decreases t.len() - i,
    {
        out.push((t[i].0.clone(), t[i].1.copy()));
        i = i + 1;
    }
    out
}

/// The cache of the context with the schema of the described table stored under
/// `<region>/<table name>`, the region being the one in effect; the other tables are
/// kept as they are.
pub fn insert_to_table_cache(cx: &Context, desc: &TableDescription) -> (r: Cache)
    requires
        cx.cache is Some,
        table_describable(*desc),
    ensures
        r.tables matches Some(ts) && {
            let before = cached_tables(cx.cache.unwrap());
            let region = effective_region_spec(*cx);
            let key = cache_key_text(region, desc.table_name.unwrap()@);
            let k = table_index(before, key);
            &&& k >= 0 ==> {
                &&& ts.len() == before.len()
                &&& forall|j: int| 0 <= j < before.len() && j != k ==> #[trigger] same_entry(before[j], ts@[j])
                &&& ts@[k].0@ == key
                &&& schema_describes(ts@[k].1, region, *desc)
            }
            &&& k < 0 ==> {
                &&& ts.len() == before.len() + 1
                &&& forall|j: int| 0 <= j < before.len() ==> #[trigger] same_entry(before[j], ts@[j])
                &&& ts@.last().0@ == key
                &&& schema_describes(ts@.last().1, region, *desc)
            }
        },
{
    let region = cx.effective_region();
    let schema = table_schema_of(region.as_str(), desc);
    let ghost described = schema;
    let mut cache = match &cx.cache {
        Some(c) => match &c.tables {
            Some(t) => Cache { tables: Some(copy_tables(t)) },
            None => Cache { tables: None },
        },
        None => Cache { tables: None },
    };
    let ghost copied = cached_tables(cache);
    let ghost before = cached_tables(cx.cache.unwrap());
    proof {
        let key = cache_key_text(region@, desc.table_name.unwrap()@);
        lemma_same_tables_index(before, copied, key);
    }
    cache.insert_table_schema(region.as_str(), schema);
    proof {
        let key = cache_key_text(region@, desc.table_name.unwrap()@);
        let ts = cached_tables(cache);
        let k = table_index(copied, key);
        lemma_table_index_bound(copied, key);
        if k >= 0 {
            lemma_describes_same(described, ts[k].1, region@, *desc);
            assert forall|j: int| 0 <= j < before.len() && j != k implies #[trigger] same_entry(before[j], ts[j]) by {
                assert(same_entry(before[j], copied[j]));
                assert(ts[j] == copied[j]);
            }
        } else {
            lemma_describes_same(described, ts.last().1, region@, *desc);
            assert forall|j: int| 0 <= j < before.len() implies #[trigger] same_entry(before[j], ts[j]) by {
                assert(same_entry(before[j], copied[j]));
                assert(ts.drop_last()[j] == copied[j]);
            }
        }
    }
    cache
}

/// The context in which a command runs: the config and cache files, and the options
/// that override them.
#[derive(Debug, Clone)]
pub struct Context {
    pub config: Option<Config>,
    pub cache: Option<Cache>,
    /// --region option
    pub overwritten_region: Option<String>,
    /// --table option
    pub overwritten_table_name: Option<String>,
    /// --port option
    pub overwritten_port: Option<u32>,
    pub output: Option<String>,
    pub should_strict_for_query: Option<bool>,
    pub retry: Option<RetryPlans>,
}

/// The region named by a `--region` option: `local` stands for DynamoDB Local.
pub open spec fn region_text(s: Option<String>) -> Option<Seq<char>> {
    match s {
        Some(x) => Some(x@),
        None => None,
    }
}

/// The region that a `--region` option names.
pub fn region_from_str(s: Option<String>, p: Option<u32>) -> (r: Option<String>)
    ensures
        match r {
            Some(x) => region_text(s) == Some(x@),
            None => s is None,
        },
{
    match s {
        Some(x) => {
            if x == String::from_str("local") {
                Some(String::from_str("local"))
            } else {
                Some(x)
            }
        },
        None => None,
    }
}

/// The region in effect: the `--region` option, else the region in use in the config,
/// else `us-east-1`.
pub open spec fn effective_region_spec(cx: Context) -> Seq<char> {
    match cx.overwritten_region {
        Some(r) => r@,
        None => match cx.config {
            Some(c) => match c.using_region {
                Some(r) => r@,
                None => "us-east-1"@,
            },
            None => "us-east-1"@,
        },
    }
}

/// The table in effect: the `--table` option, else the table in use in the config.
pub open spec fn effective_table_spec(cx: Context) -> Option<Seq<char>> {
    match cx.overwritten_table_name {
        Some(t) => Some(t@),
        None => match cx.config {
            Some(c) => match c.using_table {
                Some(t) => Some(t@),
                None => None,
            },
            None => None,
        },
    }
}

impl Context {
    /// A context with nothing set.
    pub fn empty() -> (cx: Context)
        ensures
            cx.config is None,
            cx.cache is None,
            cx.overwritten_region is None,
            cx.overwritten_table_name is None,
            cx.overwritten_port is None,
            cx.output is None,
            cx.should_strict_for_query is None,
            cx.retry is None,
    {
        Context {
            config: None,
            cache: None,
            overwritten_region: None,
            overwritten_table_name: None,
            overwritten_port: None,
            output: None,
            should_strict_for_query: None,
            retry: None,
        }
    }

    /// The region in effect.
    pub fn effective_region(&self) -> (r: String)
        ensures
            r@ == effective_region_spec(*self),
    {
        if let Some(ow_region) = &self.overwritten_region {
            return ow_region.clone();
        }
        if let Some(c) = &self.config {
            if let Some(using_region_name_in_config) = &c.using_region {
                return match region_from_str(
                    Some(using_region_name_in_config.clone()),
                    Some(self.effective_port()),
                ) {
                    Some(r) => r,
                    None => using_region_name_in_config.clone(),
                };
            }
        }
        String::from_str("us-east-1")
    }

    /// The table in effect, if there is one.
    pub fn effective_table_name(&self) -> (r: Option<String>)
        ensures
            match r {
                Some(t) => effective_table_spec(*self) == Some(t@),
                None => effective_table_spec(*self) is None,
            },
    {
        if let Some(ow_table_name) = &self.overwritten_table_name {
            return Some(ow_table_name.clone());
        }
        match &self.config {
            Some(c) => match &c.using_table {
                Some(t) => Some(t.clone()),
                None => None,
            },
            None => None,
        }
    }

    /// The port in effect: the `--port` option, else the port in use in the config,
    /// else 8000.
    pub fn effective_port(&self) -> (p: u32)
        ensures
            p == match self.overwritten_port {
                Some(p) => p,
                None => match self.config {
                    Some(c) => match c.using_port {
                        Some(p) => p,
                        None => 8000,
                    },
                    None => 8000,
                },
            },
    {
        if let Some(ow_port) = self.overwritten_port {
            return ow_port;
        }
        if let Some(c) = &self.config {
            if let Some(p) = c.using_port {
                return p;
            }
        }
        8000
    }

    /// The cache key of the table in effect, `<region>/<table name>`.
    pub fn effective_cache_key(&self) -> (r: Option<String>)
        ensures
            match r {
                Some(k) => effective_table_spec(*self) matches Some(t) && k@ == cache_key_text(
                    effective_region_spec(*self),
                    t,
                ),
                None => effective_table_spec(*self) is None,
            },
    {
        match self.effective_table_name() {
            Some(t) => {
                let region = self.effective_region();
                Some(cache_key(region.as_str(), t.as_str()))
            },
            None => None,
        }
    }

    /// The cached schema of the table in effect, if the cache has it.
    pub fn cached_using_table_schema(&self) -> (r: Option<TableSchema>)
        ensures
            match r {
                Some(s) => effective_table_spec(*self) matches Some(t) && self.cache matches Some(
                    c,
                ) && c.tables matches Some(ts) && {
                    let k = table_index(ts@, cache_key_text(effective_region_spec(*self), t));
                    k >= 0 && same_schema(ts@[k].1, s)
                },
                None => effective_table_spec(*self) is None || !(self.cache matches Some(c)
                    && c.tables matches Some(ts) && effective_table_spec(*self) matches Some(t)
                    && table_index(ts@, cache_key_text(effective_region_spec(*self), t)) >= 0),
            },
    {
        let key = match self.effective_cache_key() {
            Some(k) => k,
            None => {
                return None;
            },
        };
        let cache = match &self.cache {
            Some(c) => c,
            None => {
                return None;
            },
        };
        let tables = match &cache.tables {
            Some(ts) => ts,
            None => {
                return None;
            },
        };
        match find_table(tables, &key) {
            Some(i) => Some(tables[i].1.copy()),
            None => None,
        }
    }

    /// The context with the region overridden.
    pub fn with_region(self, ec2_region: &str) -> (r: Context)
        ensures
            r.overwritten_region matches Some(x) && x@ == ec2_region@,
            r.config == self.config,
            r.overwritten_table_name == self.overwritten_table_name,
            r.overwritten_port == self.overwritten_port,
    {
        let mut cx = self;
        cx.overwritten_region = Some(String::from_str(ec2_region));
        cx
    }

    /// The context with the table overridden.
    pub fn with_table(self, table: &str) -> (r: Context)
        ensures
            r.overwritten_table_name matches Some(x) && x@ == table@,
            r.config == self.config,
            r.overwritten_region == self.overwritten_region,
            r.overwritten_port == self.overwritten_port,
    {
        let mut cx = self;
        cx.overwritten_table_name = Some(String::from_str(table));
        cx
    }

    /// Whether sort key conditions are read in strict mode: the option, else the config,
    /// else not.
    pub fn should_strict_for_query(&self) -> (b: bool)
        ensures
            b == match self.should_strict_for_query {
                Some(x) => x,
                None => match self.config {
                    Some(c) => c.query.strict_mode,
                    None => false,
                },
            },
    {
        match self.should_strict_for_query {
            Some(x) => x,
            None => match &self.config {
                Some(c) => c.query.strict_mode,
                None => false,
            },
        }
    }

    /// Whether the region in effect is DynamoDB Local.
    pub fn is_local(&self) -> (b: bool)
        ensures
            b == (effective_region_spec(*self) == "local"@),
    {
        let region = self.effective_region();
        region == String::from_str("local")
    }
}

/// After a schema is stored in the cache under a key, looking that key up finds an
/// entry with that schema.
pub proof fn law_cache_lookup_after_insert(
    before: Seq<(String, TableSchema)>,
    after: Seq<(String, TableSchema)>,
    key: Seq<char>,
    schema: TableSchema,
)
    requires
        ({
            let k = table_index(before, key);
            &&& k >= 0 ==> after == before.update(k, after[k]) && after[k].0@ == key && same_schema(
                schema,
                after[k].1,
            )
            &&& k < 0 ==> after.len() > 0 && after.drop_last() == before && after.last().0@ == key
                && same_schema(schema, after.last().1)
        }),
    ensures
        table_index(after, key) >= 0,
        same_schema(schema, after[table_index(after, key)].1),
{
    let k = table_index(before, key);
    lemma_table_index_bound(before, key);
    if k >= 0 {
        lemma_table_index_update(before, key, k, after[k]);
    } else {
        assert(after.drop_last() == before);
    }
}

proof fn lemma_table_index_bound(ts: Seq<(String, TableSchema)>, key: Seq<char>)
    ensures
        -1 <= table_index(ts, key) < ts.len(),
    decreases ts.len(),
{
    if ts.len() > 0 {
        lemma_table_index_bound(ts.drop_last(), key);
    }
}

proof fn lemma_table_index_update(
    ts: Seq<(String, TableSchema)>,
    key: Seq<char>,
    k: int,
    x: (String, TableSchema),
)
    requires
        0 <= k < ts.len(),
        table_index(ts, key) == k,
        x.0@ == key,
    ensures
        table_index(ts.update(k, x), key) == k,
    decreases ts.len(),
{
    lemma_table_index_bound(ts.drop_last(), key);
    if k < ts.len() - 1 {
        assert(ts.update(k, x).drop_last() =~= ts.drop_last().update(k, x));
        if table_index(ts.drop_last(), key) < 0 {
            assert(ts.last().0@ == key);
            assert(false);
        }
        lemma_table_index_update(ts.drop_last(), key, k, x);
    } else {
        assert(ts.update(k, x).drop_last() =~= ts.drop_last());
    }
}


proof fn lemma_same_keys_index(a: Seq<(String, TableSchema)>, b: Seq<(String, TableSchema)>, key: Seq<char>)
    requires
        a.len() == b.len(),
        forall|i: int| 0 <= i < a.len() ==> (#[trigger] a[i]).0@ == b[i].0@,
    ensures
        table_index(a, key) == table_index(b, key),
    decreases a.len(),
{
    if a.len() > 0 {
        assert(a[a.len() - 1].0@ == b[b.len() - 1].0@);
        assert forall|i: int| 0 <= i < a.len() - 1 implies (#[trigger] a.drop_last()[i]).0@ == b.drop_last()[i].0@ by {
            assert(a[i].0@ == b[i].0@);
        }
        lemma_same_keys_index(a.drop_last(), b.drop_last(), key);
    }
}

/// After `use`, later commands find the table in use in the cache: when the config names
/// the described table, in the region in effect when its schema was stored, and no
/// `--region` or `--table` option overrides it, looking up the table in use finds a
/// schema that describes that table.
pub proof fn law_use_then_lookup(before: Context, after: Context, desc: TableDescription, cache: Cache)
    requires
        before.cache is Some,
        table_describable(desc),
        cache.tables matches Some(ts) && {
            let b = cached_tables(before.cache.unwrap());
            let region = effective_region_spec(before);
            let key = cache_key_text(region, desc.table_name.unwrap()@);
            let k = table_index(b, key);
            &&& k >= 0 ==> {
                &&& ts.len() == b.len()
                &&& forall|j: int| 0 <= j < b.len() && j != k ==> #[trigger] same_entry(b[j], ts@[j])
                &&& ts@[k].0@ == key
                &&& schema_describes(ts@[k].1, region, desc)
            }
            &&& k < 0 ==> {
                &&& ts.len() == b.len() + 1
                &&& forall|j: int| 0 <= j < b.len() ==> #[trigger] same_entry(b[j], ts@[j])
                &&& ts@.last().0@ == key
                &&& schema_describes(ts@.last().1, region, desc)
            }
        },
        after.cache == Some(cache),
        after.overwritten_region is None,
        after.overwritten_table_name is None,
        after.config is Some,
        after.config.unwrap().using_table matches Some(t) && t@ == desc.table_name.unwrap()@,
        after.config.unwrap().using_region matches Some(r) && r@ == effective_region_spec(before),
    ensures
        effective_table_spec(after) == Some(desc.table_name.unwrap()@),
        effective_region_spec(after) == effective_region_spec(before),
        ({
            let ts = cache.tables.unwrap()@;
            let k = table_index(ts, cache_key_text(effective_region_spec(after), desc.table_name.unwrap()@));
            k >= 0 && schema_describes(ts[k].1, effective_region_spec(before), desc)
        }),
{
    let b = cached_tables(before.cache.unwrap());
    let region = effective_region_spec(before);
    let key = cache_key_text(region, desc.table_name.unwrap()@);
    let ts = cache.tables.unwrap()@;
    let k = table_index(b, key);
    lemma_table_index_bound(b, key);
    if k >= 0 {
        let u = b.update(k, ts[k]);
        assert forall|i: int| 0 <= i < ts.len() implies (#[trigger] ts[i]).0@ == u[i].0@ by {
            if i != k {
                assert(same_entry(b[i], ts[i]));
            }
        }
        lemma_same_keys_index(ts, u, key);
        lemma_table_index_update(b, key, k, ts[k]);
    } else {
        let u = b.push(ts.last());
        assert forall|i: int| 0 <= i < ts.len() implies (#[trigger] ts[i]).0@ == u[i].0@ by {
            if i < b.len() {
                assert(same_entry(b[i], ts[i]));
            }
        }
        lemma_same_keys_index(ts, u, key);
        assert(u.drop_last() =~= b);
    }
}
} // verus!
