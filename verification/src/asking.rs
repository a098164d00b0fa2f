//! Who may ask, what is asked, and how it is answered.
use vstd::prelude::*;
use vstd::string::*;

use crate::api::{ApiError, PerfMetricData};
use crate::command;
use crate::command::Reply;
use crate::config;
use crate::config::AppConfig;
use crate::report;
use crate::sampling;
use crate::text;
use crate::wording;

verus! {

// ---------------------------------------------------------------------------
// Who
// ---------------------------------------------------------------------------
/// Whether a list names this id.
pub open spec fn names(list: Seq<String>, id: Seq<char>) -> bool {
    exists|i: int| 0 <= i < list.len() && (#[trigger] list[i])@ == id
}

/// In a group whoever is there may ask, if the group is listed or no group is; in
/// private whoever is listed as an administrator, or everybody where nobody is.
pub proof fn lists_open_conversations(
    config: AppConfig,
    group_id: Seq<char>,
    sender_id: Seq<char>,
)
    ensures
        group_id.len() > 0 ==> (command::may_ask(config, group_id, sender_id)
            <==> config.bot.allowed_group_ids@.len() == 0 || names(
            config.bot.allowed_group_ids@,
            group_id,
        )),
        group_id.len() == 0 ==> (command::may_ask(config, group_id, sender_id)
            <==> config.bot.admin_user_ids@.len() == 0 || names(
            config.bot.admin_user_ids@,
            sender_id,
        )),
{
    listed_is_named(config.bot.allowed_group_ids@, group_id);
    listed_is_named(config.bot.admin_user_ids@, sender_id);
}

proof fn listed_is_named(list: Seq<String>, id: Seq<char>)
    ensures
        text::texts(list).contains(id) == names(list, id),
{
    let listed = text::texts(list);
    if listed.contains(id) {
        let i = choose|i: int| 0 <= i < listed.len() && listed[i] == id;
        assert(list[i]@ == id);
    }
    if names(list, id) {
        let i = choose|i: int| 0 <= i < list.len() && (#[trigger] list[i])@ == id;
        assert(listed[i] == id);
    }
}

/// An administrator's command is carried out for the listed administrators, or for
/// everybody where nobody is listed; others get the refusal.
pub proof fn admin_commands_are_for_administrators(
    config: AppConfig,
    sender_id: &str,
    allowed: String,
    refused: &str,
    r: String,
)
    requires
        call_ensures(command::admin_reply, (&config, sender_id, allowed, refused), r),
    ensures
        config.bot.admin_user_ids@.len() == 0 || names(config.bot.admin_user_ids@, sender_id@)
            ==> r@ == allowed@,
        config.bot.admin_user_ids@.len() > 0 && !names(config.bot.admin_user_ids@, sender_id@)
            ==> r@ == refused@,
{
    listed_is_named(config.bot.admin_user_ids@, sender_id@);
}

/// A question in a conversation that is not open is refused, whatever it asks.
pub proof fn closed_conversations_are_refused(
    config: AppConfig,
    group_id: &str,
    sender_id: &str,
    args: &str,
    r: Result<(i64, Option<String>), String>,
)
    requires
        call_ensures(command::accept_query, (&config, group_id, sender_id, args), r),
        !command::may_ask(config, group_id@, sender_id@),
    ensures
        r is Err,
        r->Err_0@ == "当前会话未启用模型监控查询"@,
{
}

// ---------------------------------------------------------------------------
// What
// ---------------------------------------------------------------------------
/// The window that is asked for is the last one named among the words, wherever it
/// stands; where none is, it is the standard one.
pub proof fn last_named_window_is_taken(words: Seq<Seq<char>>, default: i64, i: int)
    requires
        forall|j: int| i < j < words.len() ==> config::named_window(#[trigger] words[j]) is None,
        i == -1 || (0 <= i < words.len() && config::named_window(words[i]) is Some),
    ensures
        i == -1 ==> command::window_in(words, default) == default,
        i >= 0 ==> command::window_in(words, default) == config::named_window(words[i])->0,
    decreases words.len(),
{
    if words.len() > 0 && i < words.len() - 1 {
        let rest = words.drop_last();
        assert(config::named_window(words[words.len() - 1]) is None);
        assert forall|j: int| i < j < rest.len() implies config::named_window(
            #[trigger] rest[j],
        ) is None by {
            assert(rest[j] == words[j]);
        }
        last_named_window_is_taken(rest, default, i);
    }
}

/// The model that is asked for is named by the words that name no window, in their order
/// and with a blank between two; where there are none, no model is asked for.
pub proof fn other_words_name_the_model(words: Seq<Seq<char>>, word: Seq<char>)
    ensures
        command::name_in(Seq::empty()) is None,
        config::named_window(word) is Some ==> command::name_in(words.push(word))
            == command::name_in(words),
        config::named_window(word) is None && command::name_in(words) is None ==> command::name_in(
            words.push(word),
        ) == Some(word),
        config::named_window(word) is None && command::name_in(words) is Some ==> command::name_in(
            words.push(word),
        ) == Some(command::name_in(words)->0 + " "@ + word),
{
    reveal(Seq::filter);
    assert(words.push(word).drop_last() =~= words);
    let others = command::other_words(words);
    if config::named_window(word) is None {
        assert(others.push(word).drop_last() =~= others);
        assert(command::other_words(words.push(word)) == others.push(word));
    }
}

/// A question is answered exactly if the standard window has a name and the model that
/// is asked for, where one is, is a watched one under its name or display name, but for
/// case; an unknown model is named in the refusal.
pub proof fn known_models_are_answered(config: AppConfig, args: Seq<char>, name: Seq<char>)
    requires
        config::named_window(config.status.default_window@) is Some,
    ensures
        command::name_in(text::words(args)) is None ==> command::query_problem(config, args) is None,
        command::name_in(text::words(args)) == Some(name) ==> {
            let known = exists|i: int|
                0 <= i < config.models@.len() && (wording::same_but_for_case(
                    (#[trigger] config.models@[i]).name@,
                    name,
                ) || wording::same_but_for_case(config.models@[i].display_name@, name));
            &&& known ==> command::query_problem(config, args) is None
            &&& !known ==> command::query_problem(config, args) == Some("模型不在白名单中: "@ + name)
        },
{
    let models = config.models@;
    assert forall|i: int| 0 <= i < models.len() implies #[trigger] command::is_called(
        models[i],
        name,
    ) == (wording::same_but_for_case(models[i].name@, name) || wording::same_but_for_case(
        models[i].display_name@,
        name,
    )) by {
        wording::case_does_not_matter(models[i].name@, name);
        wording::case_does_not_matter(models[i].display_name@, name);
    }
    if exists|i: int|
        0 <= i < models.len() && (wording::same_but_for_case((#[trigger] models[i]).name@, name)
            || wording::same_but_for_case(models[i].display_name@, name)) {
        let i = choose|i: int|
            0 <= i < models.len() && (wording::same_but_for_case((#[trigger] models[i]).name@, name)
                || wording::same_but_for_case(models[i].display_name@, name));
        assert(command::is_called(models[i], name));
    }
    if command::is_listed(models, name) {
        let i = choose|i: int|
            0 <= i < models.len() && #[trigger] command::is_called(models[i], name);
        assert(wording::same_but_for_case(models[i].name@, name) || wording::same_but_for_case(
            models[i].display_name@,
            name,
        ));
    }
}

/// A model that is asked for in a report goes by the words without the white space
/// around them; blank words ask for none.
pub proof fn blank_questions_ask_for_none(query: &str)
    ensures
        report::asked(None) is None,
        !sampling::says_something(query@) ==> report::asked(Some(query)) is None,
        sampling::says_something(query@) ==> report::asked(Some(query)) == Some(
            text::trimmed(query@),
        ),
{
    text::trimmed_is_empty_iff_blank(query@);
}

/// Public metrics cover the hours of the window, from an hour to thirty days; where the
/// window is shorter than an hour, as many as configured, within the same bounds.
pub proof fn hours_follow_the_window(config: AppConfig, window: i64, hours: int)
    ensures
        window >= 3_600 && window == hours * 3_600 && hours <= 720 ==> command::hours_for(
            config,
            window,
        ) == hours,
        window > 720 * 3_600 ==> command::hours_for(config, window) == 720,
        window < 3_600 && 1 <= config.perf_metrics.default_hours <= 720 ==> command::hours_for(
            config,
            window,
        ) == config.perf_metrics.default_hours,
        window < 3_600 && config.perf_metrics.default_hours == 0 ==> command::hours_for(
            config,
            window,
        ) == 1,
        window < 3_600 && config.perf_metrics.default_hours > 720 ==> command::hours_for(
            config,
            window,
        ) == 720,
{
}

/// Public metrics are asked for exactly where a single model is and they are enabled.
pub proof fn public_metrics_are_for_single_models(
    config: AppConfig,
    window: i64,
    model: Option<String>,
    r: Option<u32>,
)
    requires
        call_ensures(command::perf_hours, (&config, window, &model), r),
    ensures
        r is Some <==> model is Some && config.perf_metrics.enabled,
        r is Some ==> r->0 == command::hours_for(config, window),
{
}

/// The section on public metrics is the report on them, or tells why there is none.
pub proof fn missing_metrics_are_explained(
    metrics: Result<&PerfMetricData, &ApiError>,
    hours: u32,
    r: String,
)
    requires
        call_ensures(command::perf_section, (metrics, hours), r),
    ensures
        metrics is Ok ==> r@ == report::perf_text(*metrics->Ok_0, hours),
        metrics is Err ==> r@ == "[模型广场参考]\n获取失败: "@ + metrics->Err_0.words(),
{
}

// ---------------------------------------------------------------------------
// Answers
// ---------------------------------------------------------------------------
/// One message is given back as the answer, and none as a note that there is nothing.
/// Several are queued in their order: for the group where there is one, for the sender
/// otherwise.
pub proof fn answers_go_where_the_question_came_from(
    reply: Reply,
    group_id: Seq<char>,
    sender_id: Seq<char>,
    chunks: Seq<Seq<char>>,
)
    requires
        reply.answers(group_id, sender_id, chunks),
    ensures
        chunks.len() == 0 ==> (reply matches Reply::Text(s) && s@ == "暂无数据"@),
        chunks.len() == 1 ==> (reply matches Reply::Text(s) && s@ == chunks[0]),
        chunks.len() >= 2 ==> reply is Queued,
        reply matches Reply::Queued { to_group, target_id, messages } ==> {
            &&& messages@.len() == chunks.len()
            &&& forall|i: int|
                0 <= i < messages@.len() ==> (#[trigger] messages@[i])@ == chunks[i]
            &&& group_id.len() > 0 ==> to_group && target_id@ == group_id
            &&& group_id.len() == 0 ==> !to_group && target_id@ == sender_id
        },
{
    if let Reply::Queued { to_group, target_id, messages } = reply {
        assert(text::texts(messages@).len() == messages@.len());
        assert forall|i: int| 0 <= i < messages@.len() implies (#[trigger] messages@[i])@
            == chunks[i] by {
            assert(text::texts(messages@)[i] == messages@[i]@);
        }
    }
}

// ---------------------------------------------------------------------------
// The operations themselves
// ---------------------------------------------------------------------------
/// Who may ask is decided by the list for the kind of conversation alone.
pub proof fn questions_are_admitted_by_lists(
    config: AppConfig,
    group_id: &str,
    sender_id: &str,
    r: bool,
)
    requires
        call_ensures(command::query_allowed, (&config, group_id, sender_id), r),
    ensures
        group_id@.len() > 0 ==> (r <==> config.bot.allowed_group_ids@.len() == 0 || names(
            config.bot.allowed_group_ids@,
            group_id@,
        )),
        group_id@.len() == 0 ==> (r <==> config.bot.admin_user_ids@.len() == 0 || names(
            config.bot.admin_user_ids@,
            sender_id@,
        )),
{
    lists_open_conversations(config, group_id@, sender_id@);
}

/// A question of one word is about that window where it names one, and otherwise about
/// the standard window and the model that it names.
pub proof fn questions_are_read(
    config: AppConfig,
    args: &str,
    r: Result<(i64, Option<String>), String>,
    window: i64,
)
    requires
        call_ensures(command::parse_query, (&config, args), r),
        config::named_window(config.status.default_window@) == Some(window),
    ensures
        text::words(args@).len() == 0 ==> r is Ok && r->Ok_0.0 == window && r->Ok_0.1 is None,
        text::words(args@).len() == 1 && config::named_window(text::words(args@)[0]) is Some ==> r
            is Ok && r->Ok_0.0 == config::named_window(text::words(args@)[0])->0 && r->Ok_0.1
            is None,
        text::words(args@).len() == 1 && config::named_window(text::words(args@)[0]) is None && r
            is Ok ==> r->Ok_0.0 == window && r->Ok_0.1 is Some && r->Ok_0.1->0@ == text::words(
            args@,
        )[0],
        r is Ok && r->Ok_0.1 is Some ==> exists|i: int|
            0 <= i < config.models@.len() && (wording::same_but_for_case(
                (#[trigger] config.models@[i]).name@,
                r->Ok_0.1->0@,
            ) || wording::same_but_for_case(config.models@[i].display_name@, r->Ok_0.1->0@)),
{
    let words = text::words(args@);
    if words.len() == 0 {
        assert(words =~= Seq::empty());
        other_words_name_the_model(Seq::empty(), Seq::empty());
        known_models_are_answered(config, args@, Seq::empty());
        last_named_window_is_taken(words, window, -1);
    } else if words.len() == 1 {
        assert(words =~= Seq::<Seq<char>>::empty().push(words[0]));
        other_words_name_the_model(Seq::empty(), words[0]);
        if config::named_window(words[0]) is Some {
            known_models_are_answered(config, args@, Seq::empty());
            last_named_window_is_taken(words, window, 0);
        } else {
            last_named_window_is_taken(words, window, -1);
        }
    }
    if r is Ok && r->Ok_0.1 is Some {
        known_models_are_answered(config, args@, r->Ok_0.1->0@);
    }
}

/// Public metrics are asked for over the hours of the window.
pub proof fn windows_become_hours(config: AppConfig, window: i64, r: u32)
    requires
        call_ensures(command::window_hours, (&config, window), r),
    ensures
        1 <= r <= 720,
        window == 3_600 ==> r == 1,
        window == 86_400 ==> r == 24,
        window == 604_800 ==> r == 7 * 24,
        window < 3_600 && 1 <= config.perf_metrics.default_hours <= 720 ==> r
            == config.perf_metrics.default_hours,
{
    hours_follow_the_window(config, window, 1);
    hours_follow_the_window(config, window, 24);
    hours_follow_the_window(config, window, 168);
}

/// Answers go where the question came from.
pub proof fn responses_go_back(
    group_id: &str,
    sender_id: &str,
    chunks: Vec<String>,
    r: Reply,
)
    requires
        call_ensures(command::respond_chunks, (group_id, sender_id, chunks), r),
    ensures
        chunks@.len() == 0 ==> (r matches Reply::Text(s) && s@ == "暂无数据"@),
        chunks@.len() == 1 ==> (r matches Reply::Text(s) && s@ == chunks@[0]@),
        chunks@.len() >= 2 ==> (r matches Reply::Queued { to_group, target_id, messages }
            && messages@.len() == chunks@.len() && to_group == (group_id@.len() > 0) && target_id@
            == if group_id@.len() > 0 {
            group_id@
        } else {
            sender_id@
        }),
{
    let told = text::texts(chunks@);
    answers_go_where_the_question_came_from(r, group_id@, sender_id@, told);
    if chunks@.len() == 1 {
        assert(told[0] == chunks@[0]@);
    }
}

/// An admitted question is answered as it is read.
pub proof fn admitted_questions_are_read(
    config: AppConfig,
    group_id: &str,
    sender_id: &str,
    args: &str,
    accepted: Result<(i64, Option<String>), String>,
    read: Result<(i64, Option<String>), String>,
)
    requires
        call_ensures(command::accept_query, (&config, group_id, sender_id, args), accepted),
        call_ensures(command::parse_query, (&config, args), read),
        command::may_ask(config, group_id@, sender_id@),
    ensures
        accepted is Ok <==> read is Ok,
        accepted is Ok ==> accepted->Ok_0.0 == read->Ok_0.0 && command::maybe_text(accepted->Ok_0.1)
            == command::maybe_text(read->Ok_0.1),
        accepted is Err ==> accepted->Err_0@ == read->Err_0@,
{
}

} // verus!
