//! Jobs that run on a schedule: how they are made, listed, stored and when they are due.
use vstd::prelude::*;
use crate::channels::{CompletionRoute, RouteView};
use crate::config::{CronToolConfig, GatewayChannelKind};
use crate::error::{ErrorView, FrameworkError};
use crate::error;
use crate::json::{Json, JsonView};
use crate::json;
use crate::providers::types::copy_text;
use crate::text;
use crate::time::Timestamp;
use crate::time;

verus! {

/// A job that runs on a schedule.
#[derive(Debug, PartialEq, Eq)]
pub struct CronJob {
    pub id: String,
    pub agent_id: String,
    pub schedule: String,
    pub description: String,
    pub prompt: String,
    pub guard_command: Option<String>,
    pub workspace_root: String,
    pub channel_id: String,
    pub guild_id: Option<String>,
    pub source_channel: String,
    pub is_dm: bool,
    pub created_by: String,
    pub created_at: Timestamp,
    pub last_fired_at: Option<Timestamp>,
    pub guard_timeout_seconds: u64,
    pub enabled: bool,
}

/// What a job says.
#[verifier::ext_equal]
pub struct JobView {
    pub id: Seq<char>,
    pub agent_id: Seq<char>,
    pub schedule: Seq<char>,
    pub description: Seq<char>,
    pub prompt: Seq<char>,
    pub guard_command: Option<Seq<char>>,
    pub workspace_root: Seq<char>,
    pub channel_id: Seq<char>,
    pub guild_id: Option<Seq<char>>,
    pub source_channel: Seq<char>,
    pub is_dm: bool,
    pub created_by: Seq<char>,
    pub created_at: Timestamp,
    pub last_fired_at: Option<Timestamp>,
    pub guard_timeout_seconds: u64,
    pub enabled: bool,
}

impl View for CronJob {
    type V = JobView;

    open spec fn view(&self) -> JobView {
        JobView {
            id: self.id@,
            agent_id: self.agent_id@,
            schedule: self.schedule@,
            description: self.description@,
            prompt: self.prompt@,
            guard_command: text::opt_view(self.guard_command),
            workspace_root: self.workspace_root@,
            channel_id: self.channel_id@,
            guild_id: text::opt_view(self.guild_id),
            source_channel: self.source_channel@,
            is_dm: self.is_dm,
            created_by: self.created_by@,
            created_at: self.created_at,
            last_fired_at: self.last_fired_at,
            guard_timeout_seconds: self.guard_timeout_seconds,
            enabled: self.enabled,
        }
    }
}

impl JobView {
    /// Whether the calendar has the points in time of the job.
    pub open spec fn wf(self) -> bool {
        self.created_at.wf() && (self.last_fired_at is Some ==> self.last_fired_at->0.wf())
    }
}

/// The message of the error of `cron::Schedule::from_str`, where it has one.
pub uninterp spec fn schedule_error(expression: Seq<char>) -> Option<Seq<char>>;

/// The first time behind a point, in seconds, that `cron::Schedule::after` gives for a schedule.
pub uninterp spec fn fire_after(expression: Seq<char>, secs: int, nanos: int) -> Option<int>;

/// `cron::Schedule::from_str`, for whether it fails.  The message of its error is named.
#[verifier::external_body]
fn error_of_schedule(expression: &str) -> (r: Option<String>)
    ensures
        text::opt_view(r) == schedule_error(expression@),
{
    <cron::Schedule as std::str::FromStr>::from_str(expression).err().map(|e| e.to_string())
}

/// The first item of `cron::Schedule::after` for a point in UTC.  The times of a schedule are whole
/// seconds; which one comes is named.  A text that is no schedule has none.
#[verifier::external_body]
fn next_fire(expression: &str, point: Timestamp) -> (r: Option<i64>)
    requires
        point.wf(),
    ensures
        opt_secs(r) == fire_after(expression@, point.secs as int, point.nanos as int),
{
    let schedule = <cron::Schedule as std::str::FromStr>::from_str(expression).ok()?;
    let point = chrono::DateTime::from_timestamp(point.secs, point.nanos)?;
    schedule.after(&point).next().map(|next| next.timestamp())
}

/// What an optional time says.
pub open spec fn opt_secs(r: Option<i64>) -> Option<int> {
    match r {
        Some(secs) => Some(secs as int),
        None => None,
    }
}

/// The schedule that a text stands for, given the errors of reading it as it is and with a field
/// for the seconds before it.  Five fields are one for the minutes and so on.
pub open spec fn effective_schedule(
    raw: Seq<char>,
    error: Option<Seq<char>>,
    padded_error: Option<Seq<char>>,
) -> Result<Seq<char>, Seq<char>> {
    match error {
        None => Ok(raw),
        Some(message) => if text::words(raw).len() == 5 {
            match padded_error {
                None => Ok("0 "@ + raw),
                Some(message) => Err(message),
            }
        } else {
            Err(message)
        },
    }
}

/// The schedule that a text stands for.
pub open spec fn schedule_of(raw: Seq<char>) -> Result<Seq<char>, Seq<char>> {
    effective_schedule(raw, schedule_error(raw), schedule_error("0 "@ + raw))
}

/// What a result with a text or a message says.
pub open spec fn plain_result(r: Result<String, String>) -> Result<Seq<char>, Seq<char>> {
    match r {
        Ok(value) => Ok(value@),
        Err(message) => Err(message@),
    }
}

/// The schedule that a text stands for, given the errors of reading it.
pub fn choose_schedule(raw: &str, error: Option<String>, padded_error: Option<String>) -> (r: Result<
    String,
    String,
>)
    ensures
        plain_result(r) == effective_schedule(
            raw@,
            text::opt_view(error),
            text::opt_view(padded_error),
        ),
{
    match error {
        None => Ok(raw.to_owned()),
        Some(message) => {
            let fields = text::words_of(raw);
            if fields.len() == 5 {
                match padded_error {
                    None => Ok(text::concat2("0 ", raw)),
                    Some(message) => Err(message),
                }
            } else {
                Err(message)
            }
        },
    }
}

/// The schedule that a text stands for.
pub fn parse_schedule(raw: &str) -> (r: Result<String, String>)
    ensures
        plain_result(r) == schedule_of(raw@),
{
    let padded = text::concat2("0 ", raw);
    choose_schedule(raw, error_of_schedule(raw), error_of_schedule(padded.as_str()))
}

/// Whether a job is due, given the next time of its schedule behind its last run, or behind the
/// second before the current minute where it never ran.
pub open spec fn is_due(last: Option<Timestamp>, next: Option<int>, now: Timestamp) -> bool {
    match next {
        Some(next) => next <= now.secs && (last is None ==> now.minute_start() <= next),
        None => false,
    }
}

/// From which point on the next time of a job's schedule is asked for.
pub open spec fn asked_from(last: Option<Timestamp>, now: Timestamp) -> (int, int) {
    match last {
        Some(last) => (last.secs as int, last.nanos as int),
        None => (now.minute_start() - 1, 0),
    }
}

/// Whether a job is due.
pub open spec fn fires(schedule: Seq<char>, last: Option<Timestamp>, now: Timestamp) -> bool {
    match schedule_of(schedule) {
        Ok(expression) => is_due(
            last,
            fire_after(expression, asked_from(last, now).0, asked_from(last, now).1),
            now,
        ),
        Err(_) => false,
    }
}

/// Whether a job is due, given the next time of its schedule.
pub fn due(last: Option<Timestamp>, next: Option<i64>, now: Timestamp) -> (r: bool)
    requires
        now.wf(),
    ensures
        r == is_due(last, opt_secs(next), now),
{
    match next {
        Some(next) => next <= now.secs && (last.is_some() || now.start_of_minute() <= next),
        None => false,
    }
}

/// Whether a job is due.
pub fn should_fire(job: &CronJob, now: Timestamp) -> (r: bool)
    requires
        job@.wf(),
        now.wf(),
        now.secs > -7_999_999_999_000,
    ensures
        r == fires(job.schedule@, job.last_fired_at, now),
{
    let expression = match parse_schedule(job.schedule.as_str()) {
        Ok(expression) => expression,
        Err(_) => {
            return false;
        },
    };
    let from = match job.last_fired_at {
        Some(last) => last,
        None => Timestamp { secs: now.start_of_minute() - 1, nanos: 0 },
    };
    due(job.last_fired_at, next_fire(expression.as_str(), from), now)
}

/// A job that never ran is due only at a time of the current minute.
pub proof fn law_first_run_is_in_this_minute(next: int, now: Timestamp)
    requires
        is_due(None, Some(next), now),
    ensures
        now.minute_start() <= next <= now.secs,
        next < now.minute_start() + 60,
{
}

/// A text that is no schedule makes no job due.
pub proof fn law_invalid_schedules_never_fire(
    schedule: Seq<char>,
    last: Option<Timestamp>,
    now: Timestamp,
)
    requires
        schedule_of(schedule) is Err,
    ensures
        !fires(schedule, last, now),
{
}

/// What the tool is asked to do.
#[derive(Debug, Clone, Copy, PartialEq, Eq, Structural)]
pub enum CronAction {
    Create,
    Delete,
    List,
}

/// The arguments of the tool.
#[derive(Debug, PartialEq, Eq)]
pub struct CronArgs {
    pub action: CronAction,
    pub schedule: Option<String>,
    pub description: Option<String>,
    pub prompt: Option<String>,
    pub guard_command: Option<String>,
    pub id: Option<String>,
    pub query: Option<String>,
}

/// A given text without white space around it, where anything is left.
pub open spec fn filled(value: Option<Seq<char>>) -> Option<Seq<char>> {
    match value {
        Some(value) => if text::is_blank(value) {
            None
        } else {
            Some(text::trim(value))
        },
        None => None,
    }
}

/// A given text without white space around it, where anything is left.
pub fn filled_text(value: &Option<String>) -> (r: Option<String>)
    ensures
        text::opt_view(r) == filled(text::opt_view(*value)),
{
    match value {
        Some(value) => if text::blank(value.as_str()) {
            None
        } else {
            Some(text::trimmed(value.as_str()))
        },
        None => None,
    }
}

/// A job as it was asked for.
#[derive(Debug, PartialEq, Eq)]
pub struct CronRequest {
    pub schedule: String,
    pub description: String,
    pub prompt: String,
    pub guard_command: Option<String>,
}

/// A job as it was asked for, as it reads.
#[verifier::ext_equal]
pub struct RequestView {
    pub schedule: Seq<char>,
    pub description: Seq<char>,
    pub prompt: Seq<char>,
    pub guard_command: Option<Seq<char>>,
}

impl View for CronRequest {
    type V = RequestView;

    open spec fn view(&self) -> RequestView {
        RequestView {
            schedule: self.schedule@,
            description: self.description@,
            prompt: self.prompt@,
            guard_command: text::opt_view(self.guard_command),
        }
    }
}

/// The job that arguments ask for, given the error in its schedule, if there is one.
pub open spec fn request_of(
    args: CronArgs,
    has_route: bool,
    invalid: Option<Seq<char>>,
) -> Result<RequestView, ErrorView> {
    let schedule = filled(text::opt_view(args.schedule));
    let description = filled(text::opt_view(args.description));
    let prompt = filled(text::opt_view(args.prompt));
    if !has_route {
        Err(ErrorView::Tool("cron create unavailable: completion route context is missing"@))
    } else if schedule is None {
        Err(ErrorView::Tool("cron create requires non-empty schedule"@))
    } else if invalid is Some {
        Err(
            ErrorView::Tool("invalid cron schedule '"@ + schedule->0 + "': "@ + invalid->0),
        )
    } else if description is None {
        Err(ErrorView::Tool("cron create requires non-empty description"@))
    } else if prompt is None {
        Err(ErrorView::Tool("cron create requires non-empty prompt"@))
    } else {
        Ok(
            RequestView {
                schedule: schedule->0,
                description: description->0,
                prompt: prompt->0,
                guard_command: filled(text::opt_view(args.guard_command)),
            },
        )
    }
}

/// The error in the schedule that arguments name.
pub open spec fn invalid_schedule(args: CronArgs) -> Option<Seq<char>> {
    match filled(text::opt_view(args.schedule)) {
        Some(schedule) => match schedule_of(schedule) {
            Ok(_) => None,
            Err(message) => Some(message),
        },
        None => None,
    }
}

/// What a result with a request says.
pub open spec fn request_result(r: Result<CronRequest, FrameworkError>) -> Result<
    RequestView,
    ErrorView,
> {
    match r {
        Ok(request) => Ok(request@),
        Err(error) => Err(error@),
    }
}

/// The job that arguments ask for, given the error in its schedule.
pub fn checked_request(args: &CronArgs, has_route: bool, invalid: Option<String>) -> (r: Result<
    CronRequest,
    FrameworkError,
>)
    ensures
        request_result(r) == request_of(*args, has_route, text::opt_view(invalid)),
{
    if !has_route {
        return Err(
            error::tool_error("cron create unavailable: completion route context is missing"),
        );
    }
    let schedule = match filled_text(&args.schedule) {
        Some(schedule) => schedule,
        None => {
            return Err(error::tool_error("cron create requires non-empty schedule"));
        },
    };
    if let Some(message) = invalid {
        let head = text::concat3("invalid cron schedule '", schedule.as_str(), "': ");
        return Err(FrameworkError::Tool(text::concat2(head.as_str(), message.as_str())));
    }
    let description = match filled_text(&args.description) {
        Some(description) => description,
        None => {
            return Err(error::tool_error("cron create requires non-empty description"));
        },
    };
    let prompt = match filled_text(&args.prompt) {
        Some(prompt) => prompt,
        None => {
            return Err(error::tool_error("cron create requires non-empty prompt"));
        },
    };
    Ok(
        CronRequest { schedule, description, prompt, guard_command: filled_text(
            &args.guard_command,
        ) },
    )
}

/// The job that arguments ask for.
pub fn create_request(args: &CronArgs, has_route: bool) -> (r: Result<CronRequest, FrameworkError>)
    ensures
        request_result(r) == request_of(*args, has_route, invalid_schedule(*args)),
{
    let invalid = match filled_text(&args.schedule) {
        Some(schedule) => match parse_schedule(schedule.as_str()) {
            Ok(_) => None,
            Err(message) => Some(message),
        },
        None => None,
    };
    checked_request(args, has_route, invalid)
}

/// How many jobs an agent may have.
pub open spec fn job_limit(config: CronToolConfig) -> u32 {
    match config.max_jobs_per_agent {
        Some(limit) => limit,
        None => 50,
    }
}

/// How long a guard command may run; at least one second.
pub open spec fn guard_timeout(config: CronToolConfig) -> u64 {
    match config.guard_timeout_seconds {
        Some(seconds) => if seconds < 1 {
            1
        } else {
            seconds
        },
        None => 10,
    }
}

/// The error of an agent that has as many jobs as it may have.
pub open spec fn limit_error(config: CronToolConfig) -> ErrorView {
    ErrorView::Tool(
        "cron create rejected: max jobs per agent ("@ + text::decimal(job_limit(config) as nat)
            + ") reached"@,
    )
}

/// The job of a request.
pub open spec fn job_of(
    request: RequestView,
    config: CronToolConfig,
    route: RouteView,
    agent_id: Seq<char>,
    workspace_root: Seq<char>,
    user_id: Seq<char>,
    id: Seq<char>,
    now: Timestamp,
) -> JobView {
    JobView {
        id,
        agent_id,
        schedule: request.schedule,
        description: request.description,
        prompt: request.prompt,
        guard_command: request.guard_command,
        workspace_root,
        channel_id: route.channel_id,
        guild_id: route.guild_id,
        source_channel: route.source_channel.label(),
        is_dm: route.is_dm,
        created_by: user_id,
        created_at: now,
        last_fired_at: None,
        guard_timeout_seconds: guard_timeout(config),
        enabled: true,
    }
}

/// What a result with a job says.
pub open spec fn job_result(r: Result<CronJob, FrameworkError>) -> Result<JobView, ErrorView> {
    match r {
        Ok(job) => Ok(job@),
        Err(error) => Err(error@),
    }
}

/// The job of a request, with the given id and time, unless the agent has enough jobs.
pub fn admit_job(
    request: CronRequest,
    config: CronToolConfig,
    route: &CompletionRoute,
    agent_id: &str,
    workspace_root: &str,
    user_id: &str,
    current_count: u32,
    id: String,
    now: Timestamp,
) -> (r: Result<CronJob, FrameworkError>)
    ensures
        job_result(r) == if current_count >= job_limit(config) {
            Err::<JobView, ErrorView>(limit_error(config))
        } else {
            Ok::<JobView, ErrorView>(
                job_of(
                    request@,
                    config,
                    route@,
                    agent_id@,
                    workspace_root@,
                    user_id@,
                    id@,
                    now,
                ),
            )
        },
{
    let limit: u32 = match config.max_jobs_per_agent {
        Some(limit) => limit,
        None => 50,
    };
    if current_count >= limit {
        let written = text::decimal_of(limit as u64);
        return Err(
            FrameworkError::Tool(
                text::concat3(
                    "cron create rejected: max jobs per agent (",
                    written.as_str(),
                    ") reached",
                ),
            ),
        );
    }
    let guard_timeout_seconds: u64 = match config.guard_timeout_seconds {
        Some(seconds) => if seconds < 1 {
            1
        } else {
            seconds
        },
        None => 10,
    };
    Ok(
        CronJob {
            id,
            agent_id: agent_id.to_owned(),
            schedule: request.schedule,
            description: request.description,
            prompt: request.prompt,
            guard_command: request.guard_command,
            workspace_root: workspace_root.to_owned(),
            channel_id: route.channel_id.clone(),
            guild_id: copy_text(&route.guild_id),
            source_channel: route.source_channel.as_str().to_owned(),
            is_dm: route.is_dm,
            created_by: user_id.to_owned(),
            created_at: now,
            last_fired_at: None,
            guard_timeout_seconds,
            enabled: true,
        },
    )
}

/// `uuid::Uuid::new_v4`, written out.  The id is random: nothing is claimed of it.
#[verifier::external_body]
fn fresh_id() -> (r: String) {
    uuid::Uuid::new_v4().to_string()
}

/// The job of a request, with a fresh id, unless the agent has enough jobs.
pub fn new_job(
    request: CronRequest,
    config: CronToolConfig,
    route: &CompletionRoute,
    agent_id: &str,
    workspace_root: &str,
    user_id: &str,
    current_count: u32,
    now: Timestamp,
) -> (r: Result<CronJob, FrameworkError>)
    ensures
        match r {
            Ok(job) => current_count < job_limit(config) && job@ == job_of(
                request@,
                config,
                route@,
                agent_id@,
                workspace_root@,
                user_id@,
                job.id@,
                now,
            ),
            Err(error) => current_count >= job_limit(config) && error@ == limit_error(config),
        },
{
    admit_job(
        request,
        config,
        route,
        agent_id,
        workspace_root,
        user_id,
        current_count,
        fresh_id(),
        now,
    )
}

/// What the tool answers when a job was made.
pub open spec fn created_answer(job: JobView) -> JsonView {
    JsonView::Object(
        map![
            "status"@ => JsonView::Str("created"@),
            "id"@ => JsonView::Str(job.id),
            "schedule"@ => JsonView::Str(job.schedule),
            "description"@ => JsonView::Str(job.description),
            "prompt"@ => JsonView::Str(job.prompt),
            "guardCommand"@ => json::opt_text_json(job.guard_command),
            "guardTimeoutSeconds"@ => JsonView::Number(
                json::integer_number(job.guard_timeout_seconds as int),
            ),
        ],
    )
}

/// What the tool answers when a job was made.
pub fn created_json(job: &CronJob) -> (r: Json)
    ensures
        r@ == created_answer(job@),
        r.wf(),
{
    Json::object().with("status", Json::text("created")).with(
        "id",
        Json::text(job.id.as_str()),
    ).with("schedule", Json::text(job.schedule.as_str())).with(
        "description",
        Json::text(job.description.as_str()),
    ).with("prompt", Json::text(job.prompt.as_str())).with(
        "guardCommand",
        Json::text_or_null(&job.guard_command),
    ).with("guardTimeoutSeconds", Json::unsigned(job.guard_timeout_seconds))
}

/// The id of the job that is to go.
pub fn delete_id(args: &CronArgs) -> (r: Result<String, FrameworkError>)
    ensures
        error::text_result(r) == match filled(text::opt_view(args.id)) {
            Some(id) => Ok::<Seq<char>, ErrorView>(id),
            None => Err::<Seq<char>, ErrorView>(
                ErrorView::Tool("cron delete requires non-empty id"@),
            ),
        },
{
    match filled_text(&args.id) {
        Some(id) => Ok(id),
        None => Err(error::tool_error("cron delete requires non-empty id")),
    }
}

/// What the tool answers when a job was to go.
pub fn deleted_json(id: &str, deleted: bool) -> (r: Json)
    ensures
        r@ == JsonView::Object(
            map![
                "status"@ => JsonView::Str("ok"@),
                "deleted"@ => JsonView::Bool(deleted),
                "id"@ => JsonView::Str(id@),
            ],
        ),
        r.wf(),
{
    Json::object().with("status", Json::text("ok")).with("deleted", Json::Bool(deleted)).with(
        "id",
        Json::text(id),
    )
}

/// What jobs are searched for.
pub fn list_query(args: &CronArgs) -> (r: Option<String>)
    ensures
        text::opt_view(r) == filled(text::opt_view(args.query)),
{
    filled_text(&args.query)
}

/// The pattern that a search looks for: the text anywhere, in lower case.
pub fn like_pattern(query: &str) -> (r: String)
    ensures
        r@ == "%"@ + text::lower(query@) + "%"@,
{
    text::concat3("%", text::lowered(query).as_str(), "%")
}

/// A job as the tool shows it, given how its points in time are written.
pub open spec fn shown_job(
    job: JobView,
    created_at: Seq<char>,
    last_fired_at: Option<Seq<char>>,
) -> JsonView {
    JsonView::Object(
        map![
            "id"@ => JsonView::Str(job.id),
            "agentId"@ => JsonView::Str(job.agent_id),
            "schedule"@ => JsonView::Str(job.schedule),
            "description"@ => JsonView::Str(job.description),
            "prompt"@ => JsonView::Str(job.prompt),
            "guardCommand"@ => json::opt_text_json(job.guard_command),
            "workspaceRoot"@ => JsonView::Str(job.workspace_root),
            "channelId"@ => JsonView::Str(job.channel_id),
            "guildId"@ => json::opt_text_json(job.guild_id),
            "sourceChannel"@ => JsonView::Str(job.source_channel),
            "isDm"@ => JsonView::Bool(job.is_dm),
            "createdBy"@ => JsonView::Str(job.created_by),
            "createdAt"@ => JsonView::Str(created_at),
            "lastFiredAt"@ => json::opt_text_json(last_fired_at),
            "guardTimeoutSeconds"@ => JsonView::Number(
                json::integer_number(job.guard_timeout_seconds as int),
            ),
            "enabled"@ => JsonView::Bool(job.enabled),
        ],
    )
}

/// A job as the tool shows it.
pub open spec fn job_json(job: JobView) -> JsonView {
    shown_job(
        job,
        time::written_rfc3339(job.created_at.secs as int, job.created_at.nanos as int),
        time::opt_written(job.last_fired_at),
    )
}

/// A job as the tool shows it, given how its points in time are written.
#[verifier::rlimit(60)]
pub fn show_job(job: &CronJob, created_at: &str, last_fired_at: &Option<String>) -> (r: Json)
    ensures
        r@ == shown_job(job@, created_at@, text::opt_view(*last_fired_at)),
        r.wf(),
{
    let head = Json::object().with("id", Json::text(job.id.as_str())).with(
        "agentId",
        Json::text(job.agent_id.as_str()),
    ).with("schedule", Json::text(job.schedule.as_str())).with(
        "description",
        Json::text(job.description.as_str()),
    ).with("prompt", Json::text(job.prompt.as_str())).with(
        "guardCommand",
        Json::text_or_null(&job.guard_command),
    ).with("workspaceRoot", Json::text(job.workspace_root.as_str())).with(
        "channelId",
        Json::text(job.channel_id.as_str()),
    );
    head.with("guildId", Json::text_or_null(&job.guild_id)).with(
        "sourceChannel",
        Json::text(job.source_channel.as_str()),
    ).with("isDm", Json::Bool(job.is_dm)).with(
        "createdBy",
        Json::text(job.created_by.as_str()),
    ).with("createdAt", Json::text(created_at)).with(
        "lastFiredAt",
        Json::text_or_null(last_fired_at),
    ).with("guardTimeoutSeconds", Json::unsigned(job.guard_timeout_seconds)).with(
        "enabled",
        Json::Bool(job.enabled),
    )
}

/// A job as the tool shows it.
pub fn job_to_json(job: &CronJob) -> (r: Json)
    requires
        job@.wf(),
    ensures
        r@ == job_json(job@),
        r.wf(),
{
    show_job(job, job.created_at.to_rfc3339().as_str(), &time::written(job.last_fired_at))
}

/// What jobs say.
pub open spec fn job_views(jobs: Seq<CronJob>) -> Seq<JobView> {
    Seq::new(jobs.len(), |i: int| jobs[i]@)
}

/// What the tool answers when jobs are listed.
pub fn listed_json(jobs: &Vec<CronJob>) -> (r: Json)
    requires
        forall|i: int| 0 <= i < jobs@.len() ==> (#[trigger] jobs@[i])@.wf(),
    ensures
        r@ == JsonView::Object(
            map![
                "status"@ => JsonView::Str("ok"@),
                "jobs"@ => JsonView::Array(
                    Seq::new(jobs@.len(), |i: int| job_json(job_views(jobs@)[i])),
                ),
            ],
        ),
        r.wf(),
{
    let ghost views = job_views(jobs@);
    let ghost whole = Seq::new(jobs@.len(), |i: int| job_json(views[i]));
    let mut shown: Vec<Json> = Vec::new();
    let mut i: usize = 0;
    assert(whole.take(0) =~= Seq::<JsonView>::empty());
    while i < jobs.len()
        invariant
            i <= jobs@.len(),
            forall|i: int| 0 <= i < jobs@.len() ==> (#[trigger] jobs@[i])@.wf(),
            views == job_views(jobs@),
            whole == Seq::new(jobs@.len(), |i: int| job_json(views[i])),
            json::items_view(shown@) == whole.take(i as int),
            json::all_wf(shown@),
        decreases jobs@.len() - i,
    {
        assert(jobs@[i as int]@.wf());
        json::push_item(&mut shown, job_to_json(&jobs[i]));
        i = i + 1;
        assert(whole.take(i as int) =~= whole.take(i - 1).push(whole[i - 1]));
    }
    assert(whole.take(i as int) =~= whole);
    Json::object().with("status", Json::text("ok")).with("jobs", Json::array(shown))
}

/// A job as the columns of a table hold it.
#[derive(Debug, PartialEq, Eq)]
pub struct CronRow {
    pub id: String,
    pub agent_id: String,
    pub schedule: String,
    pub description: String,
    pub prompt: String,
    pub guard_command: Option<String>,
    pub workspace_root: String,
    pub channel_id: String,
    pub guild_id: Option<String>,
    pub source_channel: String,
    pub is_dm: i64,
    pub created_by: String,
    pub created_at: String,
    pub last_fired_at: Option<String>,
    pub guard_timeout_seconds: i64,
    pub enabled: i64,
}

/// A column whose text is no point in time.
#[derive(Debug, PartialEq, Eq)]
pub enum RowError {
    CreatedAt(String),
    LastFiredAt(String),
}

/// The number that stands for a truth value.
pub fn bool_to_i64(value: bool) -> (r: i64)
    ensures
        r == (if value {
            1int
        } else {
            0int
        }),
{
    if value {
        1
    } else {
        0
    }
}

/// Whether the columns hold what a job says besides its times.
pub open spec fn holds_texts(row: CronRow, job: JobView) -> bool {
    &&& row.id@ == job.id
    &&& row.agent_id@ == job.agent_id
    &&& row.schedule@ == job.schedule
    &&& row.description@ == job.description
    &&& row.prompt@ == job.prompt
    &&& text::opt_view(row.guard_command) == job.guard_command
    &&& row.workspace_root@ == job.workspace_root
    &&& row.channel_id@ == job.channel_id
    &&& text::opt_view(row.guild_id) == job.guild_id
    &&& row.source_channel@ == job.source_channel
    &&& row.is_dm != 0 <==> job.is_dm
    &&& row.created_by@ == job.created_by
    &&& row.guard_timeout_seconds as u64 == job.guard_timeout_seconds
    &&& row.enabled != 0 <==> job.enabled
}

/// Whether the columns hold a job.
pub open spec fn holds(row: CronRow, job: JobView) -> bool {
    &&& holds_texts(row, job)
    &&& time::reads_as(row.created_at@, job.created_at)
    &&& match (row.last_fired_at, job.last_fired_at) {
        (Some(written), Some(point)) => time::reads_as(written@, point),
        (None, None) => true,
        _ => false,
    }
}

/// The columns that hold a job.  With years of four digits they are read back as the job.
pub fn row_of_job(job: &CronJob) -> (r: CronRow)
    requires
        job@.wf(),
    ensures
        holds_texts(r, job@),
        r.created_at@ == time::written_rfc3339(
            job.created_at.secs as int,
            job.created_at.nanos as int,
        ),
        text::opt_view(r.last_fired_at) == time::opt_written(job.last_fired_at),
        job.created_at.writable() && (job.last_fired_at is Some
            ==> job.last_fired_at->0.writable()) ==> holds(r, job@),
        r.is_dm == 0 || r.is_dm == 1,
        r.enabled == 0 || r.enabled == 1,
{
    let seconds: u64 = job.guard_timeout_seconds;
    proof {
        assert((seconds as i64) as u64 == seconds) by (bit_vector);
    }
    CronRow {
        id: job.id.clone(),
        agent_id: job.agent_id.clone(),
        schedule: job.schedule.clone(),
        description: job.description.clone(),
        prompt: job.prompt.clone(),
        guard_command: copy_text(&job.guard_command),
        workspace_root: job.workspace_root.clone(),
        channel_id: job.channel_id.clone(),
        guild_id: copy_text(&job.guild_id),
        source_channel: job.source_channel.clone(),
        is_dm: bool_to_i64(job.is_dm),
        created_by: job.created_by.clone(),
        created_at: job.created_at.to_rfc3339(),
        last_fired_at: match job.last_fired_at {
            Some(point) => Some(point.to_rfc3339()),
            None => None,
        },
        guard_timeout_seconds: seconds as i64,
        enabled: bool_to_i64(job.enabled),
    }
}

/// The job that columns hold, or the first column that is no point in time.
pub fn parse_row(row: CronRow) -> (r: Result<CronJob, RowError>)
    ensures
        match r {
            Ok(job) => holds(row, job@) && job@.wf(),
            Err(RowError::CreatedAt(message)) => time::parsed_rfc3339(row.created_at@) == Err::<
                (int, int),
                Seq<char>,
            >(message@),
            Err(RowError::LastFiredAt(message)) => time::parsed_rfc3339(row.created_at@) is Ok
                && row.last_fired_at is Some && time::parsed_rfc3339(row.last_fired_at->0@) == Err::<
                (int, int),
                Seq<char>,
            >(message@),
        },
{
    let created_at = match Timestamp::from_rfc3339(row.created_at.as_str()) {
        Ok(point) => point,
        Err(message) => {
            return Err(RowError::CreatedAt(message));
        },
    };
    let last_fired_at = match &row.last_fired_at {
        Some(written) => match Timestamp::from_rfc3339(written.as_str()) {
            Ok(point) => Some(point),
            Err(message) => {
                return Err(RowError::LastFiredAt(message));
            },
        },
        None => None,
    };
    Ok(
        CronJob {
            id: row.id,
            agent_id: row.agent_id,
            schedule: row.schedule,
            description: row.description,
            prompt: row.prompt,
            guard_command: row.guard_command,
            workspace_root: row.workspace_root,
            channel_id: row.channel_id,
            guild_id: row.guild_id,
            source_channel: row.source_channel,
            is_dm: row.is_dm != 0,
            created_by: row.created_by,
            created_at,
            last_fired_at,
            guard_timeout_seconds: row.guard_timeout_seconds as u64,
            enabled: row.enabled != 0,
        },
    )
}

/// Columns hold one job only: what was written of a job is read back as that job.
pub proof fn law_row_holds_one_job(row: CronRow, written: JobView, read: JobView)
    requires
        holds(row, written),
        holds(row, read),
    ensures
        read == written,
{
    assert(read.created_at.secs == written.created_at.secs);
    assert(read.created_at.nanos == written.created_at.nanos);
}

/// The cron tool, with its settings.
#[derive(Debug, PartialEq, Eq)]
pub struct CronTool {
    pub config: CronToolConfig,
}

impl CronTool {
    /// What the tool is called.
    pub fn name(&self) -> (r: &'static str)
        ensures
            r@ == "cron"@,
    {
        "cron"
    }

    /// What the tool is for.
    pub fn description(&self) -> (r: &'static str)
        ensures
            r@ == "Manage agent cron jobs using JSON: {action:create|delete|list, schedule?, description?, prompt?, guard_command?, id?, query?}. Create requires schedule, description, and prompt."@,
    {
        "Manage agent cron jobs using JSON: {action:create|delete|list, schedule?, description?, prompt?, guard_command?, id?, query?}. Create requires schedule, description, and prompt."
    }

    /// What arguments the tool takes.
    pub fn input_schema_json(&self) -> (r: &'static str)
        ensures
            r@ == "{\"type\":\"object\",\"properties\":{\"action\":{\"type\":\"string\",\"enum\":[\"create\",\"delete\",\"list\"]},\"schedule\":{\"type\":\"string\"},\"description\":{\"type\":\"string\"},\"prompt\":{\"type\":\"string\"},\"guard_command\":{\"type\":\"string\"},\"id\":{\"type\":\"string\"},\"query\":{\"type\":\"string\"}},\"required\":[\"action\"]}"@,
    {
        "{\"type\":\"object\",\"properties\":{\"action\":{\"type\":\"string\",\"enum\":[\"create\",\"delete\",\"list\"]},\"schedule\":{\"type\":\"string\"},\"description\":{\"type\":\"string\"},\"prompt\":{\"type\":\"string\"},\"guard_command\":{\"type\":\"string\"},\"id\":{\"type\":\"string\"},\"query\":{\"type\":\"string\"}},\"required\":[\"action\"]}"
    }
}

/// A job that has run before is due as soon as a time of its schedule behind its last run has come,
/// however long ago that run was; it stays due until it runs.
pub proof fn law_jobs_are_due_at_their_next_time(
    schedule: Seq<char>,
    expression: Seq<char>,
    last: Timestamp,
    next: int,
    now: Timestamp,
    later: Timestamp,
)
    requires
        schedule_of(schedule) == Ok::<Seq<char>, Seq<char>>(expression),
        fire_after(expression, last.secs as int, last.nanos as int) == Some(next),
        now.secs <= later.secs,
    ensures
        fires(schedule, Some(last), now) <==> next <= now.secs,
        fires(schedule, Some(last), now) ==> fires(schedule, Some(last), later),
{
}

/// A job that never ran is due exactly where the first time of its schedule from the start of the
/// current minute on has come.
pub proof fn law_new_jobs_are_due_in_their_minute(
    schedule: Seq<char>,
    expression: Seq<char>,
    next: int,
    now: Timestamp,
)
    requires
        schedule_of(schedule) == Ok::<Seq<char>, Seq<char>>(expression),
        fire_after(expression, now.secs - now.secs % 60 - 1, 0) == Some(next),
    ensures
        fires(schedule, None, now) <==> now.secs - now.secs % 60 <= next <= now.secs,
{
}

/// A schedule without a further time makes no job due.
pub proof fn law_ended_schedules_never_fire(
    schedule: Seq<char>,
    expression: Seq<char>,
    last: Timestamp,
    now: Timestamp,
)
    requires
        schedule_of(schedule) == Ok::<Seq<char>, Seq<char>>(expression),
    ensures
        fire_after(expression, last.secs as int, last.nanos as int) is None ==> !fires(
            schedule,
            Some(last),
            now,
        ),
        fire_after(expression, now.secs - now.secs % 60 - 1, 0) is None ==> !fires(
            schedule,
            None,
            now,
        ),
{
}

/// A text that is a schedule stands for itself; one of five fields, which is none by itself, stands
/// for the schedule with the second 0 before it.
pub proof fn law_five_fields_mean_the_full_minute(raw: Seq<char>)
    ensures
        schedule_error(raw) is None ==> schedule_of(raw) == Ok::<Seq<char>, Seq<char>>(raw),
        schedule_error(raw) is Some && text::words(raw).len() == 5 && schedule_error("0 "@ + raw)
            is None ==> schedule_of(raw) == Ok::<Seq<char>, Seq<char>>("0 "@ + raw),
        schedule_error(raw) is Some && text::words(raw).len() != 5 ==> schedule_of(raw) == Err::<
            Seq<char>,
            Seq<char>,
        >(schedule_error(raw)->Some_0),
        schedule_error(raw) is Some && schedule_error("0 "@ + raw) is Some ==> schedule_of(raw)
            is Err,
{
}

/// A job is asked for with all that was given, without the white space around it; without a way
/// back, a schedule that can be kept, a description and a prompt it is refused.
pub proof fn law_jobs_are_asked_for_as_given(
    args: CronArgs,
    has_route: bool,
    invalid: Option<Seq<char>>,
)
    ensures
        request_of(args, has_route, invalid) is Ok <==> {
            &&& has_route
            &&& invalid is None
            &&& args.schedule is Some && !text::is_blank(args.schedule->0@)
            &&& args.description is Some && !text::is_blank(args.description->0@)
            &&& args.prompt is Some && !text::is_blank(args.prompt->0@)
        },
        request_of(args, has_route, invalid) matches Ok(request) ==> {
            &&& request.schedule == text::trim(args.schedule->0@)
            &&& request.description == text::trim(args.description->0@)
            &&& request.prompt == text::trim(args.prompt->0@)
            &&& args.guard_command is None ==> request.guard_command is None
            &&& args.guard_command is Some && text::is_blank(args.guard_command->0@)
                ==> request.guard_command is None
            &&& args.guard_command is Some && !text::is_blank(args.guard_command->0@)
                ==> request.guard_command == Some(text::trim(args.guard_command->0@))
        },
{
}

/// A schedule is refused where it cannot be kept, and only there.
pub proof fn law_only_wrong_schedules_are_refused(args: CronArgs)
    ensures
        args.schedule is Some && !text::is_blank(args.schedule->0@) ==> {
            let given = text::trim(args.schedule->0@);
            &&& invalid_schedule(args) is None <==> schedule_of(given) is Ok
            &&& schedule_of(given) matches Err(message) ==> invalid_schedule(args) == Some(message)
        },
        args.schedule is None ==> invalid_schedule(args) is None,
{
}

/// A new job holds what was asked for, where it was asked from and by whom, and has not run yet.
pub proof fn law_new_jobs_hold_what_was_asked(
    request: RequestView,
    config: CronToolConfig,
    route: RouteView,
    agent_id: Seq<char>,
    workspace_root: Seq<char>,
    user_id: Seq<char>,
    id: Seq<char>,
    now: Timestamp,
)
    ensures
        ({
            let job = job_of(
                request,
                config,
                route,
                agent_id,
                workspace_root,
                user_id,
                id,
                now,
            );
            &&& job.id == id
            &&& job.agent_id == agent_id
            &&& job.schedule == request.schedule
            &&& job.description == request.description
            &&& job.prompt == request.prompt
            &&& job.guard_command == request.guard_command
            &&& job.workspace_root == workspace_root
            &&& job.channel_id == route.channel_id
            &&& job.guild_id == route.guild_id
            &&& job.source_channel == route.source_channel.label()
            &&& job.is_dm == route.is_dm
            &&& job.created_by == user_id
            &&& job.created_at == now
            &&& job.last_fired_at is None
            &&& job.enabled
            &&& config.guard_timeout_seconds is None ==> job.guard_timeout_seconds == 10
            &&& config.guard_timeout_seconds is Some && config.guard_timeout_seconds->0 > 0
                ==> job.guard_timeout_seconds == config.guard_timeout_seconds->0
            &&& job.guard_timeout_seconds >= 1
        }),
        config.max_jobs_per_agent is Some ==> job_limit(config) == config.max_jobs_per_agent->0,
        config.max_jobs_per_agent is None ==> job_limit(config) == 50,
{
}

/// A job is taken as long as there are fewer than allowed.
pub proof fn law_jobs_are_taken_up_to_the_limit(
    request: CronRequest,
    config: CronToolConfig,
    route: &CompletionRoute,
    agent_id: &str,
    workspace_root: &str,
    user_id: &str,
    current_count: u32,
    id: String,
    now: Timestamp,
    r: Result<CronJob, FrameworkError>,
)
    requires
        call_ensures(
            admit_job,
            (
                request,
                config,
                route,
                agent_id,
                workspace_root,
                user_id,
                current_count,
                id,
                now,
            ),
            r,
        ),
    ensures
        r is Ok <==> current_count < job_limit(config),
        r matches Ok(job) ==> job.prompt@ == request.prompt@ && job.schedule@ == request.schedule@
            && job.id@ == id@ && job.agent_id@ == agent_id@,
{
}

/// The answer to a new job names it and what it will do.
#[verifier::rlimit(60)]
pub proof fn law_new_jobs_are_told(job: JobView)
    ensures
        created_answer(job).text_at("status"@) == Some("created"@),
        created_answer(job).text_at("id"@) == Some(job.id),
        created_answer(job).text_at("schedule"@) == Some(job.schedule),
        created_answer(job).text_at("description"@) == Some(job.description),
        created_answer(job).text_at("prompt"@) == Some(job.prompt),
        created_answer(job).text_at("guardCommand"@) == job.guard_command,
{
    reveal_strlit("status");
    reveal_strlit("id");
    reveal_strlit("schedule");
    reveal_strlit("description");
    reveal_strlit("prompt");
    reveal_strlit("guardCommand");
    reveal_strlit("guardTimeoutSeconds");
    assert("status"@.len() == 6 && "status"@[0] == 's');
    assert("id"@.len() == 2);
    assert("schedule"@.len() == 8);
    assert("description"@.len() == 11);
    assert("prompt"@.len() == 6 && "prompt"@[0] == 'p');
    assert("guardCommand"@.len() == 12);
    assert("guardTimeoutSeconds"@.len() == 19);
}

/// A job is shown with all that it holds.
#[verifier::rlimit(100)]
pub proof fn law_jobs_are_shown_whole(job: JobView)
    ensures
        job_json(job).text_at("id"@) == Some(job.id),
        job_json(job).text_at("agentId"@) == Some(job.agent_id),
        job_json(job).text_at("schedule"@) == Some(job.schedule),
        job_json(job).text_at("description"@) == Some(job.description),
        job_json(job).text_at("prompt"@) == Some(job.prompt),
        job_json(job).text_at("guardCommand"@) == job.guard_command,
        job_json(job).text_at("workspaceRoot"@) == Some(job.workspace_root),
        job_json(job).text_at("channelId"@) == Some(job.channel_id),
        job_json(job).text_at("createdBy"@) == Some(job.created_by),
        job_json(job).get("enabled"@) == Some(JsonView::Bool(job.enabled)),
{
    reveal_strlit("id");
    reveal_strlit("agentId");
    reveal_strlit("schedule");
    reveal_strlit("description");
    reveal_strlit("prompt");
    reveal_strlit("guardCommand");
    reveal_strlit("workspaceRoot");
    reveal_strlit("channelId");
    reveal_strlit("guildId");
    reveal_strlit("sourceChannel");
    reveal_strlit("isDm");
    reveal_strlit("createdBy");
    reveal_strlit("createdAt");
    reveal_strlit("lastFiredAt");
    reveal_strlit("guardTimeoutSeconds");
    reveal_strlit("enabled");
    assert("id"@.len() == 2);
    assert("agentId"@.len() == 7 && "agentId"@[0] == 'a');
    assert("schedule"@.len() == 8);
    assert("description"@.len() == 11 && "description"@[0] == 'd');
    assert("prompt"@.len() == 6);
    assert("guardCommand"@.len() == 12);
    assert("workspaceRoot"@.len() == 13 && "workspaceRoot"@[0] == 'w');
    assert("channelId"@.len() == 9 && "channelId"@[1] == 'h');
    assert("guildId"@.len() == 7 && "guildId"@[0] == 'g');
    assert("sourceChannel"@.len() == 13 && "sourceChannel"@[0] == 's');
    assert("isDm"@.len() == 4);
    assert("createdBy"@.len() == 9 && "createdBy"@[1] == 'r' && "createdBy"@[7] == 'B');
    assert("createdAt"@.len() == 9 && "createdAt"@[1] == 'r' && "createdAt"@[7] == 'A');
    assert("lastFiredAt"@.len() == 11 && "lastFiredAt"@[0] == 'l');
    assert("guardTimeoutSeconds"@.len() == 19);
    assert("enabled"@.len() == 7 && "enabled"@[0] == 'e');
}

/// A row holds each thing of a job under its own name.
pub proof fn law_rows_hold_each_thing_under_its_name(row: CronRow, job: JobView)
    requires
        holds(row, job),
    ensures
        row.id@ == job.id,
        row.agent_id@ == job.agent_id,
        row.schedule@ == job.schedule,
        row.description@ == job.description,
        row.prompt@ == job.prompt,
        row.workspace_root@ == job.workspace_root,
        row.channel_id@ == job.channel_id,
        row.source_channel@ == job.source_channel,
        row.created_by@ == job.created_by,
        row.guard_command is Some <==> job.guard_command is Some,
        row.guard_command is Some ==> row.guard_command->0@ == job.guard_command->0,
        row.guild_id is Some <==> job.guild_id is Some,
        row.guild_id is Some ==> row.guild_id->0@ == job.guild_id->0,
        job.is_dm <==> row.is_dm != 0,
        job.enabled <==> row.enabled != 0,
        row.last_fired_at is Some <==> job.last_fired_at is Some,
{
}

/// A job is seen with all that it holds, as it is.
pub proof fn law_jobs_are_seen_as_they_are(job: CronJob)
    ensures
        job@.id == job.id@,
        job@.agent_id == job.agent_id@,
        job@.schedule == job.schedule@,
        job@.description == job.description@,
        job@.prompt == job.prompt@,
        job@.workspace_root == job.workspace_root@,
        job@.channel_id == job.channel_id@,
        job@.source_channel == job.source_channel@,
        job@.created_by == job.created_by@,
        job@.created_at == job.created_at,
        job@.last_fired_at == job.last_fired_at,
        job@.guard_timeout_seconds == job.guard_timeout_seconds,
        job@.enabled == job.enabled,
        job@.is_dm == job.is_dm,
{
}

/// A job is deleted by the id that is given, and not without one.
pub proof fn law_jobs_are_deleted_by_their_id(
    args: &CronArgs,
    r: Result<String, FrameworkError>,
)
    requires
        call_ensures(delete_id, (args,), r),
    ensures
        r is Ok <==> args.id is Some && !text::is_blank(args.id->0@),
        r matches Ok(id) ==> id@ == text::trim(args.id->0@),
{
}

/// Jobs are looked for by what is given, without the white space around it, and by nothing where
/// nothing is given.
pub proof fn law_jobs_are_looked_for_as_given(args: &CronArgs, r: Option<String>)
    requires
        call_ensures(list_query, (args,), r),
    ensures
        r is Some <==> args.query is Some && !text::is_blank(args.query->0@),
        r matches Some(query) ==> query@ == text::trim(args.query->0@),
{
}

/// A job that ran before is due from its next time on, however long ago its last run is; one that
/// never ran is due in the minute of its time.
pub proof fn law_due_jobs_are_due(
    last: Option<Timestamp>,
    next: Option<i64>,
    now: Timestamp,
    r: bool,
)
    requires
        call_ensures(due, (last, next, now), r),
    ensures
        last is Some && next is Some ==> (r <==> next->0 <= now.secs),
        last is None && next is Some ==> (r <==> now.secs - now.secs % 60 <= next->0 <= now.secs),
        next is None ==> !r,
{
}

/// A job fires exactly when the time after its last run that its schedule gives has come.
pub proof fn law_jobs_fire_when_their_time_has_come(
    job: &CronJob,
    now: Timestamp,
    r: bool,
    expression: Seq<char>,
    time: int,
)
    requires
        call_ensures(should_fire, (job, now), r),
        job.last_fired_at is Some,
        schedule_of(job.schedule@) == Ok::<Seq<char>, Seq<char>>(expression),
        fire_after(
            expression,
            job.last_fired_at->0.secs as int,
            job.last_fired_at->0.nanos as int,
        ) == Some(time),
    ensures
        r <==> time <= now.secs,
{
}

} // verus!
