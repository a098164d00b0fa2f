//! Commands: who may ask, what is asked, and how the answer goes out.
use vstd::prelude::*;
use vstd::string::*;

use crate::api::{ApiError, PerfMetricData};
use crate::config;
use crate::config::{AppConfig, ModelConfig};
use crate::push::queue_message;
use crate::report;
use crate::text;

verus! {

// ---------------------------------------------------------------------------
// Who may ask
// ---------------------------------------------------------------------------
/// Whether `id` is on the list `allowed`; an empty list allows everyone.
pub open spec fn is_allowed(allowed: Seq<String>, id: Seq<char>) -> bool {
    allowed.len() == 0 || text::texts(allowed).contains(id)
}

/// Whether a group may ask.
pub fn group_allowed(config: &AppConfig, group_id: &str) -> (r: bool)
    ensures
        r == is_allowed(config.bot.allowed_group_ids@, group_id@),
{
    config.bot.allowed_group_ids.len() == 0 || text::holds_text(
        &config.bot.allowed_group_ids,
        group_id,
    )
}

/// Whether a user may administer.
pub fn admin_allowed(config: &AppConfig, user_id: &str) -> (r: bool)
    ensures
        r == is_allowed(config.bot.admin_user_ids@, user_id@),
{
    config.bot.admin_user_ids.len() == 0 || text::holds_text(&config.bot.admin_user_ids, user_id)
}

/// Whether a question is allowed: in a group by the list of groups, in private by
/// the list of administrators.
pub open spec fn may_ask(config: AppConfig, group_id: Seq<char>, sender_id: Seq<char>) -> bool {
    if group_id.len() == 0 {
        is_allowed(config.bot.admin_user_ids@, sender_id)
    } else {
        is_allowed(config.bot.allowed_group_ids@, group_id)
    }
}

/// Whether a question is allowed.
pub fn query_allowed(config: &AppConfig, group_id: &str, sender_id: &str) -> (r: bool)
    ensures
        r == may_ask(*config, group_id@, sender_id@),
{
    if text::char_count(group_id) == 0 {
        admin_allowed(config, sender_id)
    } else {
        group_allowed(config, group_id)
    }
}

// ---------------------------------------------------------------------------
// What is asked
// ---------------------------------------------------------------------------
/// The window that the last word that names one asks for, `default` where none does.
pub open spec fn window_in(words: Seq<Seq<char>>, default: i64) -> i64
    decreases words.len(),
{
    if words.len() == 0 {
        default
    } else {
        match config::named_window(words.last()) {
            Some(window) => window,
            None => window_in(words.drop_last(), default),
        }
    }
}

/// The words that name no window.
pub open spec fn other_words(words: Seq<Seq<char>>) -> Seq<Seq<char>> {
    words.filter(|w: Seq<char>| config::named_window(w) is None)
}

/// The name of a model that the words ask for, where they ask for one.
pub open spec fn name_in(words: Seq<Seq<char>>) -> Option<Seq<char>> {
    if other_words(words).len() == 0 {
        None
    } else {
        Some(text::joined(other_words(words), " "@))
    }
}

/// Whether a configured model goes by the name `query`.
pub open spec fn is_called(model: ModelConfig, query: Seq<char>) -> bool {
    text::lowered(model.name@) == text::lowered(query) || text::lowered(model.display_name@)
        == text::lowered(query)
}

/// Whether a model on the list goes by the name `query`.
pub open spec fn is_listed(models: Seq<ModelConfig>, query: Seq<char>) -> bool {
    exists|i: int| 0 <= i < models.len() && #[trigger] is_called(models[i], query)
}

/// What is wrong with a question, where anything is.
pub open spec fn query_problem(config: AppConfig, args: Seq<char>) -> Option<Seq<char>> {
    if config::named_window(config.status.default_window@) is None {
        Some(config::unknown_window(config.status.default_window@))
    } else {
        match name_in(text::words(args)) {
            Some(name) => if is_listed(config.models@, name) {
                None
            } else {
                Some(report::unknown_model(name))
            },
            None => None,
        }
    }
}

/// An optional text.
pub open spec fn maybe_text(s: Option<String>) -> Option<Seq<char>> {
    match s {
        Some(t) => Some(t@),
        None => None,
    }
}

fn lists_model(config: &AppConfig, query: &str) -> (r: bool)
    ensures
        r == is_listed(config.models@, query@),
{
    let mut i: usize = 0;
    while i < config.models.len()
        invariant
            i <= config.models@.len(),
            forall|k: int| 0 <= k < i ==> !#[trigger] is_called(config.models@[k], query@),
        decreases config.models@.len() - i,
    {
        if text::same_ignoring_case(config.models[i].name.as_str(), query)
            || text::same_ignoring_case(config.models[i].display_name.as_str(), query) {
            assert(is_called(config.models@[i as int], query@));
            return true;
        }
        i = i + 1;
    }
    false
}

/// Reads a question: a window and the name of a model, in any order. Without a
/// window the default one is meant, without a name all models.
pub fn parse_query(config: &AppConfig, args: &str) -> (r: Result<(i64, Option<String>), String>)
    ensures
        match r {
            Ok((window, model)) => {
                &&& query_problem(*config, args@) is None
                &&& window == window_in(
                    text::words(args@),
                    config::named_window(config.status.default_window@)->0,
                )
                &&& maybe_text(model) == name_in(text::words(args@))
            },
            Err(error) => query_problem(*config, args@) == Some(error@),
        },
{
    let default: i64 = match config::parse_window(config.status.default_window.as_str()) {
        Ok(window) => window,
        Err(error) => {
            return Err(error);
        },
    };
    let parts = text::split_words(args);
    let ghost words = text::words(args@);
    let mut window: i64 = default;
    let mut names: Vec<String> = Vec::new();
    let mut i: usize = 0;
    proof {
        reveal(Seq::filter);
        assert(text::texts(names@) =~= other_words(words.take(0)));
    }
    while i < parts.len()
        invariant
            i <= parts@.len(),
            words == text::texts(parts@),
            window == window_in(words.take(i as int), default),
            text::texts(names@) == other_words(words.take(i as int)),
        decreases parts@.len() - i,
    {
        proof {
            reveal(Seq::filter);
            assert(words.take(i + 1).drop_last() == words.take(i as int));
            assert(words.take(i + 1).last() == parts@[i as int]@);
        }
        match config::parse_window(parts[i].as_str()) {
            Ok(parsed) => {
                window = parsed;
            },
            Err(_) => {
                let ghost before = text::texts(names@);
                names.push(parts[i].clone());
                assert(text::texts(names@) =~= before.push(words[i as int]));
            },
        }
        i = i + 1;
    }
    assert(words.take(i as int) =~= words);
    assert(names@.len() == text::texts(names@).len());
    if names.len() == 0 {
        return Ok((window, None));
    }
    let model = text::join(&names, " ");
    if !lists_model(config, model.as_str()) {
        let mut error = "模型不在白名单中: ".to_string();
        error.append(model.as_str());
        return Err(error);
    }
    Ok((window, Some(model)))
}

/// What is said to those who may not ask.
pub open spec fn refusal() -> Seq<char> {
    "当前会话未启用模型监控查询"@
}

/// Reads a question of someone who may ask.
pub fn accept_query(config: &AppConfig, group_id: &str, sender_id: &str, args: &str) -> (r: Result<
    (i64, Option<String>),
    String,
>)
    ensures
        match r {
            Ok((window, model)) => {
                &&& may_ask(*config, group_id@, sender_id@)
                &&& query_problem(*config, args@) is None
                &&& window == window_in(
                    text::words(args@),
                    config::named_window(config.status.default_window@)->0,
                )
                &&& maybe_text(model) == name_in(text::words(args@))
            },
            Err(error) => if may_ask(*config, group_id@, sender_id@) {
                query_problem(*config, args@) == Some(error@)
            } else {
                error@ == refusal()
            },
        },
{
    if !query_allowed(config, group_id, sender_id) {
        return Err("当前会话未启用模型监控查询".to_string());
    }
    parse_query(config, args)
}

// ---------------------------------------------------------------------------
// Public metrics beside the answer
// ---------------------------------------------------------------------------
/// `n`, held between 1 and 720.
pub open spec fn hours_within(n: int) -> int {
    if n < 1 {
        1
    } else if n > 720 {
        720
    } else {
        n
    }
}

/// Over how many hours public metrics are asked for beside a window.
pub open spec fn hours_for(config: AppConfig, window: i64) -> int {
    if window < 3_600 {
        hours_within(config.perf_metrics.default_hours as int)
    } else {
        hours_within(window as int / 3_600)
    }
}

/// Over how many hours public metrics are asked for beside a window.
pub fn window_hours(config: &AppConfig, window: i64) -> (r: u32)
    ensures
        r == hours_for(*config, window),
{
    let hours: i64 = if window < 3_600 {
        config.perf_metrics.default_hours as i64
    } else {
        window / 3_600
    };
    if hours < 1 {
        1
    } else if hours > 720 {
        720
    } else {
        hours as u32
    }
}

/// The hours over which public metrics are asked for beside an answer: only where
/// one model is asked for and public metrics are on.
pub fn perf_hours(config: &AppConfig, window: i64, model: &Option<String>) -> (r: Option<u32>)
    ensures
        match r {
            Some(hours) => *model is Some && config.perf_metrics.enabled && hours == hours_for(
                *config,
                window,
            ),
            None => *model is None || !config.perf_metrics.enabled,
        },
{
    match model {
        Some(_) => {
            if config.perf_metrics.enabled {
                Some(window_hours(config, window))
            } else {
                None
            }
        },
        None => None,
    }
}

/// The part of an answer on public metrics, or on why there are none.
pub fn perf_section(metrics: Result<&PerfMetricData, &ApiError>, hours: u32) -> (r: String)
    ensures
        match metrics {
            Ok(data) => r@ == report::perf_text(*data, hours),
            Err(error) => r@ == "[模型广场参考]\n获取失败: "@ + error.words(),
        },
{
    match metrics {
        Ok(data) => report::format_perf_metrics(data, hours),
        Err(error) => {
            let mut r = "[模型广场参考]\n获取失败: ".to_string();
            r.append(error.to_text().as_str());
            r
        },
    }
}

// ---------------------------------------------------------------------------
// How the answer goes out
// ---------------------------------------------------------------------------
/// An answer: a text for the host to send, or messages that were queued for a group
/// or a user.
#[derive(Debug)]
pub enum Reply {
    Text(String),
    Queued { to_group: bool, target_id: String, messages: Vec<String> },
}

impl Reply {
    /// Whether this is the answer `chunks` to a question of `sender_id`, in the group
    /// `group_id` or in private: one message is left to the host, several are queued
    /// for where the question came from.
    pub open spec fn answers(
        self,
        group_id: Seq<char>,
        sender_id: Seq<char>,
        chunks: Seq<Seq<char>>,
    ) -> bool {
        match self {
            Reply::Text(s) => chunks.len() <= 1 && s@ == if chunks.len() == 0 {
                "暂无数据"@
            } else {
                chunks[0]
            },
            Reply::Queued { to_group, target_id, messages } => chunks.len() > 1 && to_group == (
            group_id.len() > 0) && target_id@ == (if group_id.len() > 0 {
                group_id
            } else {
                sender_id
            }) && text::texts(messages@) == chunks,
        }
    }

    /// Whether every message that this answer says was queued was queued for its
    /// group or its user.
    pub open spec fn was_sent(self) -> bool {
        self matches Reply::Queued { to_group, target_id, messages } ==> forall|k: int|
            0 <= k < messages@.len() ==> crate::push::was_queued(
                to_group,
                target_id@,
                (#[trigger] messages@[k])@,
            )
    }
}

/// Sends an answer: one message is left to the host, several are queued for where
/// the question came from.
pub fn respond_chunks(group_id: &str, sender_id: &str, chunks: Vec<String>) -> (r: Reply)
    ensures
        r.answers(group_id@, sender_id@, text::texts(chunks@)),
        r.was_sent(),
{
    if chunks.len() == 0 {
        return Reply::Text("暂无数据".to_string());
    }
    if chunks.len() == 1 {
        assert(text::texts(chunks@)[0] == chunks@[0]@);
        return Reply::Text(chunks[0].clone());
    }
    let to_group = text::char_count(group_id) > 0;
    let target_id = if to_group {
        group_id.to_string()
    } else {
        sender_id.to_string()
    };
    let mut i: usize = 0;
    while i < chunks.len()
        invariant
            i <= chunks@.len(),
            forall|k: int|
                0 <= k < i ==> crate::push::was_queued(to_group, target_id@, (#[trigger] chunks@[k])@),
        decreases chunks@.len() - i,
    {
        queue_message(to_group, target_id.as_str(), chunks[i].as_str());
        i = i + 1;
    }
    Reply::Queued { to_group, target_id, messages: chunks }
}

/// What a command for administrators is answered: `allowed` to those who may
/// administer, `refused` to others.
pub fn admin_reply(config: &AppConfig, sender_id: &str, allowed: String, refused: &str) -> (r:
    String)
    ensures
        r@ == if is_allowed(config.bot.admin_user_ids@, sender_id@) {
            allowed@
        } else {
            refused@
        },
{
    if admin_allowed(config, sender_id) {
        allowed
    } else {
        refused.to_string()
    }
}

// ---------------------------------------------------------------------------
// Laws
// ---------------------------------------------------------------------------
/// An empty list restricts nobody; a list that is not empty restricts its own kind
/// of conversation and no other.
pub proof fn lists_restrict_their_own_conversations(
    config: AppConfig,
    group_id: Seq<char>,
    sender_id: Seq<char>,
)
    ensures
        group_id.len() > 0 && config.bot.allowed_group_ids@.len() == 0 ==> may_ask(
            config,
            group_id,
            sender_id,
        ),
        group_id.len() == 0 && config.bot.admin_user_ids@.len() == 0 ==> may_ask(
            config,
            group_id,
            sender_id,
        ),
        group_id.len() > 0 && config.bot.allowed_group_ids@.len() > 0 ==> (may_ask(
            config,
            group_id,
            sender_id,
        ) <==> text::texts(config.bot.allowed_group_ids@).contains(group_id)),
        group_id.len() == 0 && config.bot.admin_user_ids@.len() > 0 ==> (may_ask(
            config,
            group_id,
            sender_id,
        ) <==> text::texts(config.bot.admin_user_ids@).contains(sender_id)),
{
}

/// A window and a name may be given in any order.
pub proof fn window_and_name_in_any_order(window: Seq<char>, name: Seq<char>, default: i64)
    requires
        config::named_window(window) is Some,
        config::named_window(name) is None,
    ensures
        window_in(seq![window, name], default) == window_in(seq![name, window], default),
        window_in(seq![window, name], default) == config::named_window(window)->0,
        name_in(seq![window, name]) == Some(name),
        name_in(seq![name, window]) == Some(name),
{
    reveal(Seq::filter);
    reveal_with_fuel(window_in, 3);
    let a = seq![window, name];
    let b = seq![name, window];
    assert(a.drop_last() =~= seq![window]);
    assert(b.drop_last() =~= seq![name]);
    assert(seq![window].drop_last() =~= Seq::<Seq<char>>::empty());
    assert(seq![name].drop_last() =~= Seq::<Seq<char>>::empty());
    assert(other_words(Seq::empty()) =~= Seq::<Seq<char>>::empty());
    assert(other_words(seq![window]) =~= Seq::<Seq<char>>::empty());
    assert(other_words(seq![name]) =~= seq![name]);
    assert(other_words(a) =~= seq![name]);
    assert(other_words(b) =~= seq![name]);
}

} // verus!
