//! The plugin's configuration and the rules that it has to keep.
use vstd::prelude::*;
use vstd::string::*;

use crate::double::Double;
use crate::text;

verus! {

/// The whole configuration.
#[derive(Clone, Debug)]
pub struct AppConfig {
    pub api: ApiConfig,
    pub storage: StorageConfig,
    pub status: StatusConfig,
    pub perf_metrics: PerfMetricsConfig,
    pub bot: BotConfig,
    pub push: PushConfig,
    pub models: Vec<ModelConfig>,
}

/// Where the management logs come from and how they are read.
#[derive(Clone, Debug)]
pub struct ApiConfig {
    pub base_url: String,
    pub admin_user_id: i64,
    pub access_token_env: String,
    pub poll_interval_secs: u64,
    pub initial_backfill_hours: u64,
    pub overlap_secs: i64,
    pub page_size: u32,
    pub max_pages_per_model: u32,
    pub request_timeout_secs: u64,
    pub settlement_grace_secs: i64,
}

/// The database file and how long its rows are kept.
#[derive(Clone, Debug)]
pub struct StorageConfig {
    pub database_file: String,
    pub retention_days: u32,
}

/// The thresholds of the health states.
#[derive(Clone, Debug)]
pub struct StatusConfig {
    pub default_window: String,
    pub minimum_samples: u64,
    pub normal_success_rate: Double,
    pub degraded_success_rate: Double,
    pub default_max_ttft_ms: i64,
    pub default_max_total_ms: i64,
    pub stale_after_secs: i64,
}

/// The supplementary query of the public metrics.
#[derive(Clone, Debug)]
pub struct PerfMetricsConfig {
    pub enabled: bool,
    pub cache_ttl_secs: i64,
    pub request_timeout_secs: u64,
    pub default_hours: u32,
}

/// Who may ask, and how long a message may be.
#[derive(Clone, Debug)]
pub struct BotConfig {
    pub allowed_group_ids: Vec<String>,
    pub admin_user_ids: Vec<String>,
    pub max_message_chars: usize,
}

/// When and where reports are pushed.
#[derive(Clone, Debug)]
pub struct PushConfig {
    pub enabled: bool,
    pub mode: String,
    pub interval_secs: i64,
    pub targets: Vec<PushTarget>,
    pub confirmations: u32,
    pub cooldown_secs: i64,
}

/// One receiver of pushed reports.
#[derive(Clone, Debug)]
pub struct PushTarget {
    pub bot_id: String,
    pub kind: String,
    pub target_id: String,
    pub guild_id: Option<String>,
}

/// One model that is watched.
#[derive(Clone, Debug)]
pub struct ModelConfig {
    pub name: String,
    pub display_name: String,
    pub groups: Vec<String>,
    pub max_ttft_ms: Option<i64>,
    pub max_total_ms: Option<i64>,
}

// ---------------------------------------------------------------------------
// Defaults
// ---------------------------------------------------------------------------
impl Default for ApiConfig {
    fn default() -> (r: Self)
        ensures
            r.base_url@ == "https://apis.extralink.net"@,
            r.admin_user_id == 0,
            r.access_token_env@ == "NEWAPI_STATUS_ACCESS_TOKEN"@,
            r.poll_interval_secs == 30,
            r.initial_backfill_hours == 24,
            r.overlap_secs == 120,
            r.page_size == 100,
            r.max_pages_per_model == 50,
            r.request_timeout_secs == 15,
            r.settlement_grace_secs == 30,
    {
        ApiConfig {
            base_url: "https://apis.extralink.net".to_string(),
            admin_user_id: 0,
            access_token_env: "NEWAPI_STATUS_ACCESS_TOKEN".to_string(),
            poll_interval_secs: 30,
            initial_backfill_hours: 24,
            overlap_secs: 120,
            page_size: 100,
            max_pages_per_model: 50,
            request_timeout_secs: 15,
            settlement_grace_secs: 30,
        }
    }
}

impl Default for StorageConfig {
    fn default() -> (r: Self)
        ensures
            r.database_file@ == "newapi-status-bot/status.db"@,
            r.retention_days == 7,
    {
        StorageConfig {
            database_file: "newapi-status-bot/status.db".to_string(),
            retention_days: 7,
        }
    }
}

impl Default for StatusConfig {
    /// The success rates are 99 and 95 percent.
    fn default() -> (r: Self)
        ensures
            r.default_window@ == "15m"@,
            r.minimum_samples == 5,
            r.normal_success_rate.bits == 0x4058_c000_0000_0000,
            r.degraded_success_rate.bits == 0x4057_c000_0000_0000,
            r.default_max_ttft_ms == 12_000,
            r.default_max_total_ms == 30_000,
            r.stale_after_secs == 180,
    {
        StatusConfig {
            default_window: "15m".to_string(),
            minimum_samples: 5,
            normal_success_rate: Double { bits: 0x4058_c000_0000_0000 },
            degraded_success_rate: Double { bits: 0x4057_c000_0000_0000 },
            default_max_ttft_ms: 12_000,
            default_max_total_ms: 30_000,
            stale_after_secs: 180,
        }
    }
}

impl Default for PerfMetricsConfig {
    fn default() -> (r: Self)
        ensures
            r.enabled,
            r.cache_ttl_secs == 300,
            r.request_timeout_secs == 3,
            r.default_hours == 24,
    {
        PerfMetricsConfig {
            enabled: true,
            cache_ttl_secs: 300,
            request_timeout_secs: 3,
            default_hours: 24,
        }
    }
}

impl Default for BotConfig {
    fn default() -> (r: Self)
        ensures
            r.allowed_group_ids@.len() == 0,
            r.admin_user_ids@.len() == 0,
            r.max_message_chars == 1800,
    {
        BotConfig {
            allowed_group_ids: Vec::new(),
            admin_user_ids: Vec::new(),
            max_message_chars: 1800,
        }
    }
}

impl Default for PushConfig {
    fn default() -> (r: Self)
        ensures
            !r.enabled,
            r.mode@ == "change"@,
            r.interval_secs == 3600,
            r.targets@.len() == 0,
            r.confirmations == 2,
            r.cooldown_secs == 900,
    {
        PushConfig {
            enabled: false,
            mode: "change".to_string(),
            interval_secs: 3600,
            targets: Vec::new(),
            confirmations: 2,
            cooldown_secs: 900,
        }
    }
}

impl Default for PushTarget {
    fn default() -> (r: Self)
        ensures
            r.bot_id@.len() == 0,
            r.kind@.len() == 0,
            r.target_id@.len() == 0,
            r.guild_id is None,
    {
        PushTarget {
            bot_id: String::new(),
            kind: String::new(),
            target_id: String::new(),
            guild_id: None,
        }
    }
}

impl Default for ModelConfig {
    fn default() -> (r: Self)
        ensures
            r.name@.len() == 0,
            r.display_name@.len() == 0,
            r.groups@.len() == 0,
            r.max_ttft_ms is None,
            r.max_total_ms is None,
    {
        ModelConfig {
            name: String::new(),
            display_name: String::new(),
            groups: Vec::new(),
            max_ttft_ms: None,
            max_total_ms: None,
        }
    }
}

impl Default for AppConfig {
    fn default() -> (r: Self)
        ensures
            call_ensures(ApiConfig::default, (), r.api),
            call_ensures(StorageConfig::default, (), r.storage),
            call_ensures(StatusConfig::default, (), r.status),
            call_ensures(PerfMetricsConfig::default, (), r.perf_metrics),
            call_ensures(BotConfig::default, (), r.bot),
            call_ensures(PushConfig::default, (), r.push),
            r.models@.len() == 0,
    {
        AppConfig {
            api: ApiConfig::default(),
            storage: StorageConfig::default(),
            status: StatusConfig::default(),
            perf_metrics: PerfMetricsConfig::default(),
            bot: BotConfig::default(),
            push: PushConfig::default(),
            models: Vec::new(),
        }
    }
}

// ---------------------------------------------------------------------------
// Windows
// ---------------------------------------------------------------------------
/// The seconds of the time window that `key` names.
pub open spec fn window_of(key: Seq<char>) -> Option<i64> {
    if key == "1m"@ {
        Some(60)
    } else if key == "5m"@ {
        Some(300)
    } else if key == "10m"@ {
        Some(600)
    } else if key == "15m"@ {
        Some(900)
    } else if key == "1h"@ {
        Some(3600)
    } else if key == "24h"@ {
        Some(86_400)
    } else if key == "7d"@ {
        Some(604_800)
    } else {
        None
    }
}

/// The window that a user's text names: white space around it and the case of
/// its letters do not matter.
pub open spec fn named_window(value: Seq<char>) -> Option<i64> {
    window_of(text::lowered(text::trimmed(value)))
}

/// What is said of a text that names no window.
pub open spec fn unknown_window(value: Seq<char>) -> Seq<char> {
    "不支持的时间窗口: "@ + value
}

/// The seconds of the time window that `key` names.
pub fn window_seconds(key: &str) -> (r: Option<i64>)
    ensures
        r == window_of(key@),
{
    if text::same_text(key, "1m") {
        Some(60)
    } else if text::same_text(key, "5m") {
        Some(300)
    } else if text::same_text(key, "10m") {
        Some(600)
    } else if text::same_text(key, "15m") {
        Some(900)
    } else if text::same_text(key, "1h") {
        Some(3600)
    } else if text::same_text(key, "24h") {
        Some(86_400)
    } else if text::same_text(key, "7d") {
        Some(604_800)
    } else {
        None
    }
}

/// The seconds of the time window that a user named.
pub fn parse_window(value: &str) -> (r: Result<i64, String>)
    ensures
        match r {
            Ok(seconds) => named_window(value@) == Some(seconds),
            Err(message) => named_window(value@) is None && message@ == unknown_window(value@),
        },
{
    let trimmed = text::trim(value);
    let key = text::to_lower(trimmed.as_str());
    match window_seconds(key.as_str()) {
        Some(seconds) => Ok(seconds),
        None => {
            let mut message = "不支持的时间窗口: ".to_string();
            message.append(value);
            Err(message)
        },
    }
}

// ---------------------------------------------------------------------------
// Push targets
// ---------------------------------------------------------------------------
impl PushTarget {
    /// The first rule that the target breaks.
    pub open spec fn problem(self) -> Option<Seq<char>> {
        if text::blank(self.bot_id@) {
            Some("push.targets[].bot_id 不能为空"@)
        } else if text::blank(self.target_id@) {
            Some("push.targets[].target_id 不能为空"@)
        } else if !(self.kind@ == "private"@ || self.kind@ == "group"@ || self.kind@ == "channel"@
            || self.kind@ == "channel_private"@) {
            Some("push.targets[].kind 只能是 private、group、channel 或 channel_private"@)
        } else {
            None
        }
    }

    /// Checks that the target can be routed.
    pub fn validate(&self) -> (r: Result<(), String>)
        ensures
            match r {
                Ok(_) => self.problem() is None,
                Err(message) => self.problem() == Some(message@),
            },
    {
        if text::is_blank(self.bot_id.as_str()) {
            return Err("push.targets[].bot_id 不能为空".to_string());
        }
        if text::is_blank(self.target_id.as_str()) {
            return Err("push.targets[].target_id 不能为空".to_string());
        }
        let kind = self.kind.as_str();
        if !(text::same_text(kind, "private") || text::same_text(kind, "group")
            || text::same_text(kind, "channel") || text::same_text(kind, "channel_private")) {
            return Err(
                "push.targets[].kind 只能是 private、group、channel 或 channel_private".to_string(),
            );
        }
        Ok(())
    }

    /// The guild of the target, where one is given.
    pub open spec fn guild(self) -> Option<Seq<char>> {
        match self.guild_id {
            Some(id) => if text::blank(id@) {
                None
            } else {
                Some(text::trimmed(id@))
            },
            None => None,
        }
    }

    /// The guild of the target without white space around it; none where it is
    /// blank.
    pub fn guild_id(&self) -> (r: Option<String>)
        ensures
            match r {
                Some(id) => self.guild() == Some(id@),
                None => self.guild() is None,
            },
    {
        match &self.guild_id {
            Some(id) => if text::is_blank(id.as_str()) {
                None
            } else {
                Some(text::trim(id.as_str()))
            },
            None => None,
        }
    }
}

// ---------------------------------------------------------------------------
// Paths
// ---------------------------------------------------------------------------
/// The kinds of parts of a path.
#[derive(Clone, Copy, Debug, PartialEq, Eq, Structural)]
pub enum PathPart {
    Prefix,
    Root,
    Current,
    Parent,
    Normal,
}

/// Whether `path` is made of nothing but ASCII letters and digits, dots, dashes,
/// underscores and slashes.
pub open spec fn plain(path: Seq<char>) -> bool {
    forall|i: int|
        0 <= i < path.len() ==> {
            let c = #[trigger] path[i];
            'a' <= c <= 'z' || 'A' <= c <= 'Z' || '0' <= c <= '9' || c == '.' || c == '-' || c
                == '_' || c == '/'
        }
}

/// Whether `path` is relative and plain: every platform reads such a path in one
/// way.
pub open spec fn portable(path: Seq<char>) -> bool {
    &&& path.len() > 0 ==> path[0] != '/'
    &&& plain(path)
}

/// Whether two dots stand alone between slashes or the ends of `path`.
pub open spec fn has_parent_part(path: Seq<char>) -> bool {
    exists|at: int| #[trigger]
        text::stands_at(path, ".."@, at) && (at == 0 || path[at - 1] == '/') && (at + 2
            == path.len() || path[at + 2] == '/')
}

/// Whether the platform takes `path` for absolute: `std::path::Path::is_absolute`.
/// A portable path is not absolute anywhere; what else is absolute differs
/// between platforms, and nothing is stated of it.
#[verifier::external_body]
fn path_is_absolute(path: &str) -> (r: bool)
    ensures
        portable(path@) ==> !r,
{
    std::path::Path::new(path).is_absolute()
}

/// The parts of `path` as the platform splits it: `std::path::Path::components`.
/// A portable path has a part that leads to the parent directory exactly where
/// two dots stand alone; how other paths are split differs between platforms, and
/// nothing is stated of them.
#[verifier::external_body]
fn path_parts(path: &str) -> (r: Vec<PathPart>)
    ensures
        portable(path@) ==> r@.contains(PathPart::Parent) == has_parent_part(path@),
{
    std::path::Path::new(path).components().map(
        |part|
            match part {
                std::path::Component::Prefix(_) => PathPart::Prefix,
                std::path::Component::RootDir => PathPart::Root,
                std::path::Component::CurDir => PathPart::Current,
                std::path::Component::ParentDir => PathPart::Parent,
                std::path::Component::Normal(_) => PathPart::Normal,
            },
    ).collect()
}

/// Whether `path` is `file` behind `directory`, with nothing or a separator of
/// directories between them.
pub open spec fn leads_from(path: Seq<char>, directory: Seq<char>, file: Seq<char>) -> bool {
    ||| path == directory + file
    ||| path == directory + seq!['/'] + file
    ||| path == directory + seq!['\\'] + file
}

/// The path of `file` seen from `directory`: `std::path::Path::join`. A portable
/// file comes behind a plain directory, and between them stands at most the
/// separator of the platform; how other paths are joined differs between platforms,
/// and nothing is stated of it.
#[verifier::external_body]
fn join_path(directory: &str, file: &str) -> (r: String)
    ensures
        plain(directory@) && portable(file@) ==> leads_from(r@, directory@, file@),
{
    std::path::Path::new(directory).join(file).to_string_lossy().into_owned()
}

/// Whether `path` is what the platform makes of `file` seen from `directory`.
pub closed spec fn is_joined(path: Seq<char>, directory: Seq<char>, file: Seq<char>) -> bool {
    exists|d: &str, f: &str, r: String|
        d@ == directory && f@ == file && r@ == path && #[trigger] call_ensures(
            join_path,
            (d, f),
            r,
        )
}

fn ask_for_two<T, F: Fn(&str, &str) -> T>(question: F, first: &str, second: &str) -> (r: T)
    requires
        call_requires(question, (first, second)),
    ensures
        call_ensures(question, (first, second), r),
{
    question(first, second)
}

fn ask<T, F: Fn(&str) -> T>(question: F, path: &str) -> (r: T)
    requires
        call_requires(question, (path,)),
    ensures
        call_ensures(question, (path,), r),
{
    question(path)
}

/// How the platform reads the path of the database file.
pub struct PathReading {
    pub absolute: bool,
    pub parts: Vec<PathPart>,
}

impl PathReading {
    /// Whether the path goes up to a parent directory.
    pub open spec fn climbs(self) -> bool {
        self.parts@.contains(PathPart::Parent)
    }

    /// Whether a platform may read `path` so.
    pub open spec fn reads(self, path: Seq<char>) -> bool {
        portable(path) ==> !self.absolute && self.climbs() == has_parent_part(path)
    }
}

/// Whether `reading` is what the platform says of `path`: whether it is absolute,
/// and which parts it has.
pub closed spec fn is_platform_reading(reading: PathReading, path: Seq<char>) -> bool {
    exists|p: &str|
        p@ == path && #[trigger] call_ensures(path_is_absolute, (p,), reading.absolute)
            && call_ensures(path_parts, (p,), reading.parts)
}

/// How this platform reads `path`.
fn read_path(path: &str) -> (r: PathReading)
    ensures
        r.reads(path@),
        is_platform_reading(r, path@),
{
    let absolute = ask(path_is_absolute, path);
    let parts = ask(path_parts, path);
    let reading = PathReading { absolute, parts };
    assert(call_ensures(path_is_absolute, (path,), reading.absolute));
    reading
}

/// The rule that a database path breaks, given how the platform reads it.
pub open spec fn path_problem(path: Seq<char>, reading: PathReading) -> Option<Seq<char>> {
    if path.len() == 0 || reading.absolute {
        Some("storage.database_file 必须是非空相对路径"@)
    } else if reading.climbs() {
        Some("storage.database_file 不允许包含上级目录"@)
    } else {
        None
    }
}

/// Checks that `path`, as the platform reads it, stays below the data directory.
pub fn validate_relative_path(path: &str, reading: &PathReading) -> (r: Result<(), String>)
    ensures
        match r {
            Ok(_) => path_problem(path@, *reading) is None,
            Err(message) => path_problem(path@, *reading) == Some(message@),
        },
{
    if path.is_empty() || reading.absolute {
        return Err("storage.database_file 必须是非空相对路径".to_string());
    }
    let mut i: usize = 0;
    while i < reading.parts.len()
        invariant
            i <= reading.parts@.len(),
            path@.len() > 0,
            !reading.absolute,
            forall|j: int| 0 <= j < i ==> reading.parts@[j] != PathPart::Parent,
        decreases reading.parts@.len() - i,
    {
        if reading.parts[i] == PathPart::Parent {
            assert(reading.parts@.contains(PathPart::Parent));
            return Err("storage.database_file 不允许包含上级目录".to_string());
        }
        i = i + 1;
    }
    Ok(())
}

// ---------------------------------------------------------------------------
// The rules of the configuration
// ---------------------------------------------------------------------------
/// The first rule that a push target from the `i`-th on breaks.
pub open spec fn targets_problem(targets: Seq<PushTarget>, i: int) -> Option<Seq<char>>
    decreases targets.len() - i,
{
    if i < 0 || i >= targets.len() {
        None
    } else if targets[i].problem() is Some {
        targets[i].problem()
    } else {
        targets_problem(targets, i + 1)
    }
}

/// Whether a model before the `i`-th has the name of the `i`-th.
pub open spec fn name_taken(models: Seq<ModelConfig>, i: int) -> bool {
    exists|j: int| 0 <= j < i && (#[trigger] models[j]).name@ == models[i].name@
}

/// The first rule that a model from the `i`-th on breaks.
pub open spec fn models_problem(models: Seq<ModelConfig>, i: int) -> Option<Seq<char>>
    decreases models.len() - i,
{
    if i < 0 || i >= models.len() {
        None
    } else if text::blank(models[i].name@) {
        Some("白名单模型名不能为空"@)
    } else if name_taken(models, i) {
        Some("白名单模型重复: "@ + models[i].name@)
    } else {
        models_problem(models, i + 1)
    }
}

impl ApiConfig {
    /// The first rule that the section breaks.
    pub open spec fn problem(self) -> Option<Seq<char>> {
        let url = text::trimmed(self.base_url@);
        if !(text::stands_at(url, "https://"@, 0) || text::stands_at(url, "http://"@, 0)) {
            Some("api.base_url 必须是 http 或 https URL"@)
        } else if self.admin_user_id <= 0 {
            Some("api.admin_user_id 必须大于 0"@)
        } else if text::blank(self.access_token_env@) {
            Some("api.access_token_env 不能为空"@)
        } else if !(10 <= self.poll_interval_secs <= 3600) {
            Some("api.poll_interval_secs 必须在 10 到 3600 秒之间"@)
        } else if !(1 <= self.page_size <= 100) {
            Some("api.page_size 必须在 1 到 100 之间"@)
        } else if self.max_pages_per_model == 0 {
            Some("api.max_pages_per_model 必须大于 0"@)
        } else if !(1 <= self.initial_backfill_hours <= 720) {
            Some("api.initial_backfill_hours 必须在 1 到 720 小时之间"@)
        } else if !(0 <= self.overlap_secs <= 3600) {
            Some("api.overlap_secs 必须在 0 到 3600 秒之间"@)
        } else if !(1 <= self.request_timeout_secs <= 120) {
            Some("api.request_timeout_secs 必须在 1 到 120 秒之间"@)
        } else {
            None
        }
    }

    fn validate(&self) -> (r: Result<(), String>)
        ensures
            match r {
                Ok(_) => self.problem() is None,
                Err(message) => self.problem() == Some(message@),
            },
    {
        let url = text::trim(self.base_url.as_str());
        if !(text::starts_with(url.as_str(), "https://") || text::starts_with(
            url.as_str(),
            "http://",
        )) {
            return Err("api.base_url 必须是 http 或 https URL".to_string());
        }
        if self.admin_user_id <= 0 {
            return Err("api.admin_user_id 必须大于 0".to_string());
        }
        if text::is_blank(self.access_token_env.as_str()) {
            return Err("api.access_token_env 不能为空".to_string());
        }
        if !(10 <= self.poll_interval_secs && self.poll_interval_secs <= 3600) {
            return Err("api.poll_interval_secs 必须在 10 到 3600 秒之间".to_string());
        }
        if !(1 <= self.page_size && self.page_size <= 100) {
            return Err("api.page_size 必须在 1 到 100 之间".to_string());
        }
        if self.max_pages_per_model == 0 {
            return Err("api.max_pages_per_model 必须大于 0".to_string());
        }
        if self.initial_backfill_hours == 0 || self.initial_backfill_hours > 720 {
            return Err("api.initial_backfill_hours 必须在 1 到 720 小时之间".to_string());
        }
        if self.overlap_secs < 0 || self.overlap_secs > 3600 {
            return Err("api.overlap_secs 必须在 0 到 3600 秒之间".to_string());
        }
        if !(1 <= self.request_timeout_secs && self.request_timeout_secs <= 120) {
            return Err("api.request_timeout_secs 必须在 1 到 120 秒之间".to_string());
        }
        Ok(())
    }
}

impl StatusConfig {
    /// Whether the success rates are percentages in the right order.
    pub open spec fn rates_fit(self) -> bool {
        self.normal_success_rate.is_percentage() && self.degraded_success_rate.is_percentage()
            && !self.normal_success_rate.less(self.degraded_success_rate)
    }
}

impl AppConfig {
    /// The first rule that the configuration breaks, given how the platform reads
    /// the path of the database file.
    pub open spec fn problem(self, reading: PathReading) -> Option<Seq<char>> {
        if self.api.problem() is Some {
            self.api.problem()
        } else if !(1 <= self.perf_metrics.request_timeout_secs <= 3) {
            Some("perf_metrics.request_timeout_secs 必须在 1 到 3 秒之间"@)
        } else if self.perf_metrics.cache_ttl_secs < 0 {
            Some("perf_metrics.cache_ttl_secs 不能为负数"@)
        } else if !(1 <= self.storage.retention_days <= 30) {
            Some("storage.retention_days 必须在 1 到 30 天之间"@)
        } else if path_problem(self.storage.database_file@, reading) is Some {
            path_problem(self.storage.database_file@, reading)
        } else if named_window(self.status.default_window@) is None {
            Some(unknown_window(self.status.default_window@))
        } else if !self.status.rates_fit() {
            Some("状态成功率阈值无效"@)
        } else if self.bot.max_message_chars < 200 {
            Some("bot.max_message_chars 不能小于 200"@)
        } else if self.push.enabled && self.push.interval_secs < 30 {
            Some("push.interval_secs 不能小于 30 秒"@)
        } else if !(self.push.mode@ == "periodic"@ || self.push.mode@ == "change"@
            || self.push.mode@ == "anomaly"@) {
            Some("push.mode 只能是 periodic、change 或 anomaly"@)
        } else if targets_problem(self.push.targets@, 0) is Some {
            targets_problem(self.push.targets@, 0)
        } else if self.models@.len() == 0 {
            Some("models 至少需要配置一个白名单模型"@)
        } else {
            models_problem(self.models@, 0)
        }
    }

    /// Checks the configuration, given how the platform reads the path of the
    /// database file.
    pub fn validate_with(&self, reading: &PathReading) -> (r: Result<(), String>)
        ensures
            match r {
                Ok(_) => self.problem(*reading) is None,
                Err(message) => self.problem(*reading) == Some(message@),
            },
    {
        match self.api.validate() {
            Ok(_) => {},
            Err(message) => {
                return Err(message);
            },
        }
        if !(1 <= self.perf_metrics.request_timeout_secs && self.perf_metrics.request_timeout_secs
            <= 3) {
            return Err("perf_metrics.request_timeout_secs 必须在 1 到 3 秒之间".to_string());
        }
        if self.perf_metrics.cache_ttl_secs < 0 {
            return Err("perf_metrics.cache_ttl_secs 不能为负数".to_string());
        }
        if !(1 <= self.storage.retention_days && self.storage.retention_days <= 30) {
            return Err("storage.retention_days 必须在 1 到 30 天之间".to_string());
        }
        match validate_relative_path(self.storage.database_file.as_str(), reading) {
            Ok(_) => {},
            Err(message) => {
                return Err(message);
            },
        }
        match parse_window(self.status.default_window.as_str()) {
            Ok(_) => {},
            Err(message) => {
                return Err(message);
            },
        }
        if !self.status.normal_success_rate.in_percent_range()
            || !self.status.degraded_success_rate.in_percent_range()
            || self.status.normal_success_rate.is_less(self.status.degraded_success_rate) {
            return Err("状态成功率阈值无效".to_string());
        }
        if self.bot.max_message_chars < 200 {
            return Err("bot.max_message_chars 不能小于 200".to_string());
        }
        if self.push.enabled && self.push.interval_secs < 30 {
            return Err("push.interval_secs 不能小于 30 秒".to_string());
        }
        let mode = self.push.mode.as_str();
        if !(text::same_text(mode, "periodic") || text::same_text(mode, "change")
            || text::same_text(mode, "anomaly")) {
            return Err("push.mode 只能是 periodic、change 或 anomaly".to_string());
        }
        match self.validate_targets() {
            Ok(_) => {},
            Err(message) => {
                return Err(message);
            },
        }
        if self.models.is_empty() {
            return Err("models 至少需要配置一个白名单模型".to_string());
        }
        self.validate_models()
    }

    fn validate_targets(&self) -> (r: Result<(), String>)
        ensures
            match r {
                Ok(_) => targets_problem(self.push.targets@, 0) is None,
                Err(message) => targets_problem(self.push.targets@, 0) == Some(message@),
            },
    {
        let mut i: usize = 0;
        while i < self.push.targets.len()
            invariant
                i <= self.push.targets@.len(),
                targets_problem(self.push.targets@, 0) == targets_problem(
                    self.push.targets@,
                    i as int,
                ),
            decreases self.push.targets@.len() - i,
        {
            match self.push.targets[i].validate() {
                Ok(_) => {},
                Err(message) => {
                    return Err(message);
                },
            }
            i = i + 1;
        }
        Ok(())
    }

    fn validate_models(&self) -> (r: Result<(), String>)
        ensures
            match r {
                Ok(_) => models_problem(self.models@, 0) is None,
                Err(message) => models_problem(self.models@, 0) == Some(message@),
            },
    {
        let mut i: usize = 0;
        while i < self.models.len()
            invariant
                i <= self.models@.len(),
                models_problem(self.models@, 0) == models_problem(self.models@, i as int),
            decreases self.models@.len() - i,
        {
            if text::is_blank(self.models[i].name.as_str()) {
                return Err("白名单模型名不能为空".to_string());
            }
            let mut j: usize = 0;
            while j < i
                invariant
                    j <= i < self.models@.len(),
                    models_problem(self.models@, 0) == models_problem(self.models@, i as int),
                    !text::blank(self.models@[i as int].name@),
                    forall|k: int|
                        0 <= k < j ==> (#[trigger] self.models@[k]).name@
                            != self.models@[i as int].name@,
                decreases i - j,
            {
                if self.models[j].name == self.models[i].name {
                    let mut message = "白名单模型重复: ".to_string();
                    message.append(self.models[i].name.as_str());
                    return Err(message);
                }
                j = j + 1;
            }
            i = i + 1;
        }
        Ok(())
    }

    /// Whether `r` is the verdict on this configuration when the platform reads
    /// the path of the database file as `reading` says.
    pub open spec fn verdict(self, reading: PathReading, r: Result<(), String>) -> bool {
        match self.problem(reading) {
            Some(message) => r is Err && r->Err_0@ == message,
            None => r is Ok,
        }
    }

    /// Whether this configuration is accepted as `r` says when the platform reads
    /// the path of the database file as `reading` says.
    pub open spec fn accepted(self, reading: PathReading, r: Result<AppConfig, String>) -> bool {
        match self.problem(reading) {
            Some(message) => r is Err && r->Err_0@ == message,
            None => r == Ok::<AppConfig, String>(self),
        }
    }

    /// Checks the configuration. How the path of the database file is read is for
    /// the platform to say.
    pub fn validate(&self) -> (r: Result<(), String>)
        ensures
            exists|reading: PathReading|
                is_platform_reading(reading, self.storage.database_file@) && reading.reads(
                    self.storage.database_file@,
                ) && #[trigger] self.verdict(reading, r),
    {
        let reading = read_path(self.storage.database_file.as_str());
        let r = self.validate_with(&reading);
        assert(self.verdict(reading, r));
        r
    }

    /// Accepts the configuration that the host handed over as `raw` and that was
    /// decoded to `decoded`.
    pub fn parse(raw: &str, decoded: Result<AppConfig, String>) -> (r: Result<AppConfig, String>)
        ensures
            text::blank(raw@) ==> r is Err && r->Err_0@
                == "缺少 config/plugins/newapi-status-bot.toml"@,
            !text::blank(raw@) ==> match decoded {
                Err(error) => r is Err && r->Err_0@ == "插件配置解析失败: "@ + error@,
                Ok(config) => exists|reading: PathReading|
                    is_platform_reading(reading, config.storage.database_file@) && reading.reads(
                        config.storage.database_file@,
                    ) && #[trigger] config.accepted(reading, r),
            },
    {
        if text::is_blank(raw) {
            return Err("缺少 config/plugins/newapi-status-bot.toml".to_string());
        }
        match decoded {
            Err(error) => {
                let mut message = "插件配置解析失败: ".to_string();
                message.append(error.as_str());
                Err(message)
            },
            Ok(config) => {
                let verdict = config.validate();
                let ghost reading = choose|reading: PathReading|
                    is_platform_reading(reading, config.storage.database_file@) && reading.reads(
                        config.storage.database_file@,
                    ) && #[trigger] config.verdict(reading, verdict);
                match verdict {
                    Ok(_) => {
                        let r = Ok::<AppConfig, String>(config);
                        assert(config.accepted(reading, r));
                        r
                    },
                    Err(message) => {
                        let r = Err::<AppConfig, String>(message);
                        assert(config.accepted(reading, r));
                        r
                    },
                }
            },
        }
    }
}

impl AppConfig {
    /// The path of the database file below the data directory, as the platform joins
    /// the two.
    pub fn database_path(&self, data_dir: &str) -> (r: String)
        ensures
            is_joined(r@, data_dir@, self.storage.database_file@),
            plain(data_dir@) && portable(self.storage.database_file@) ==> leads_from(
                r@,
                data_dir@,
                self.storage.database_file@,
            ),
    {
        ask_for_two(join_path, data_dir, self.storage.database_file.as_str())
    }
}

// ---------------------------------------------------------------------------
// Laws
// ---------------------------------------------------------------------------
/// The models of an accepted configuration are not empty, have names, and have
/// different names.
pub proof fn accepted_models_have_names_of_their_own(config: AppConfig, reading: PathReading)
    requires
        config.problem(reading) is None,
    ensures
        config.models@.len() > 0,
        forall|i: int| 0 <= i < config.models@.len() ==> !text::blank(
            (#[trigger] config.models@[i]).name@,
        ),
        forall|i: int, j: int|
            0 <= i < j < config.models@.len() ==> (#[trigger] config.models@[i]).name@ != (
            #[trigger] config.models@[j]).name@,
{
    models_without_problem(config.models@, 0);
}

proof fn models_without_problem(models: Seq<ModelConfig>, i: int)
    requires
        0 <= i,
        models_problem(models, i) is None,
    ensures
        forall|j: int|
            i <= j < models.len() ==> !text::blank((#[trigger] models[j]).name@) && !name_taken(
                models,
                j,
            ),
    decreases models.len() - i,
{
    if i < models.len() {
        models_without_problem(models, i + 1);
    }
}

/// The targets of an accepted configuration can be reached: they have a bot, an id
/// and a known kind.
pub proof fn accepted_targets_can_be_reached(config: AppConfig, reading: PathReading)
    requires
        config.problem(reading) is None,
    ensures
        forall|i: int|
            0 <= i < config.push.targets@.len() ==> (#[trigger] config.push.targets@[i]).problem() is None,
{
    targets_without_problem(config.push.targets@, 0);
}

proof fn targets_without_problem(targets: Seq<PushTarget>, i: int)
    requires
        0 <= i,
        targets_problem(targets, i) is None,
    ensures
        forall|j: int| i <= j < targets.len() ==> (#[trigger] targets[j]).problem() is None,
    decreases targets.len() - i,
{
    if i < targets.len() {
        targets_without_problem(targets, i + 1);
    }
}

/// The database of an accepted configuration stays inside the data directory: its
/// path is not empty, not absolute, and goes up nowhere.
pub proof fn accepted_database_stays_inside(config: AppConfig, reading: PathReading)
    requires
        config.problem(reading) is None,
    ensures
        config.storage.database_file@.len() > 0,
        !reading.absolute,
        !reading.climbs(),
{
}

} // verus!
