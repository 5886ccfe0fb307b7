//! What a profile and the settings must look like before they are saved.
use vstd::prelude::*;
use vstd::string::*;

use crate::error::AppError;
use crate::models::{
    LaunchItem, LaunchItemView, Profile, ProfileView, Settings, Trigger, TriggerView,
    MAX_CLOSE_DELAY_MS, MAX_DELAY_MS, MAX_GRACEFUL_TIMEOUT_MS, MAX_TRIGGERS,
    MIN_GRACEFUL_TIMEOUT_MS,
};
use crate::processes::{normalized, same_process_name};
use crate::text::{
    chars_of, decimal, decimal_text, has_prefix, has_suffix, is_ascii_alpha, is_ascii_digit,
    is_white_space, lowercase, seq_ends_with, seq_starts_with, to_lowercase, trim, trimmed,
};

verus! {

pub const MAX_NAME_LENGTH: usize = 80;

/// What `Uuid::parse_str` decides for a text: whether it parses as a UUID.
pub uninterp spec fn parses_as_uuid(text: Seq<char>) -> bool;

/// Calls `uuid::Uuid::parse_str`; whether it succeeded is named `parses_as_uuid`.
#[verifier::external_body]
fn uuid_parses(text: &str) -> (ok: bool)
    ensures
        ok == parses_as_uuid(text@),
{
    uuid::Uuid::parse_str(text).is_ok()
}

/// What `url::Url::parse` gives for a text: the scheme of the parsed URL, or `None` when
/// the text does not parse.
pub uninterp spec fn parsed_url_scheme(text: Seq<char>) -> Option<Seq<char>>;

/// Calls `url::Url::parse` and reads the scheme; the result is named `parsed_url_scheme`.
#[verifier::external_body]
pub(crate) fn url_scheme(text: &str) -> (scheme: Option<String>)
    ensures
        scheme.deep_view() == parsed_url_scheme(text@),
{
    match url::Url::parse(text) {
        Ok(url) => Some(url.scheme().to_owned()),
        Err(_) => None,
    }
}

/// What `Path::is_absolute` answers for a text. It follows the path rules of the platform the
/// program is built for, so within one build it depends on the text alone.
pub uninterp spec fn path_is_absolute(text: Seq<char>) -> bool;

/// Calls `std::path::Path::is_absolute`; the result is named `path_is_absolute`.
#[verifier::external_body]
fn is_absolute_path(text: &str) -> (absolute: bool)
    ensures
        absolute == path_is_absolute(text@),
{
    std::path::Path::new(text).is_absolute()
}

/// The characters that no file name may hold.
pub open spec fn forbidden_char(c: char) -> bool {
    c == '\\' || c == '/' || c == ':' || c == '*' || c == '?' || c == '"' || c == '<' || c == '>'
        || c == '|'
}

fn is_forbidden_char(c: char) -> (forbidden: bool)
    ensures
        forbidden == forbidden_char(c),
{
    c == '\\' || c == '/' || c == ':' || c == '*' || c == '?' || c == '"' || c == '<' || c == '>'
        || c == '|'
}

pub open spec fn name_ok(value: Seq<char>) -> bool {
    1 <= trimmed(value).len() <= MAX_NAME_LENGTH
}

/// An executable name like `App.exe`: no path characters, ends with `.exe` in any case, and
/// has something before it.
pub open spec fn executable_name_ok(value: Seq<char>) -> bool {
    &&& !exists|i: int| 0 <= i < value.len() && forbidden_char(#[trigger] value[i])
    &&& has_suffix(lowercase(value), ".exe"@)
    &&& vstd::utf8::encode_utf8(value).len() > 4
}

/// An absolute path to an `.exe`: a drive letter (`C:\`) or an absolute path of the host.
pub open spec fn executable_path_ok(value: Seq<char>) -> bool {
    let bytes = vstd::utf8::encode_utf8(value);
    let has_drive = bytes.len() > 3 && is_ascii_alpha(bytes[0] as char) && bytes[1] == 58u8
        && bytes[2] == 92u8;
    (has_drive || path_is_absolute(value)) && has_suffix(lowercase(value), ".exe"@)
}

pub open spec fn all_digits(text: Seq<char>) -> bool {
    forall|i: int| 0 <= i < text.len() ==> is_ascii_digit(#[trigger] text[i])
}

/// `steam://rungameid/<digits>` or `steam://run/<digits>`.
pub open spec fn steam_link_ok(value: Seq<char>) -> bool {
    has_prefix(value, "steam://"@) && {
        let rest = value.skip("steam://"@.len() as int);
        ||| has_prefix(rest, "rungameid/"@) && rest.len() > "rungameid/"@.len() && all_digits(
            rest.skip("rungameid/"@.len() as int),
        )
        ||| has_prefix(rest, "run/"@) && rest.len() > "run/"@.len() && all_digits(
            rest.skip("run/"@.len() as int),
        )
    }
}

/// A Microsoft Store app: `shell:AppsFolder\<app id>` with a `!` and no spaces or path
/// characters in the app id.
pub open spec fn store_app_ok(value: Seq<char>) -> bool {
    has_prefix(value, "shell:AppsFolder\\"@) && {
        let app_id = value.skip("shell:AppsFolder\\"@.len() as int);
        app_id.contains('!') && !exists|i: int|
            0 <= i < app_id.len() && (is_white_space(#[trigger] app_id[i]) || forbidden_char(app_id[i]))
    }
}

pub open spec fn item_url_ok(value: Seq<char>) -> bool {
    parsed_url_scheme(value) == Some("http"@) || parsed_url_scheme(value) == Some("https"@)
        || steam_link_ok(value)
}

pub open spec fn launch_target_ok(value: Seq<char>) -> bool {
    executable_path_ok(value) || steam_link_ok(value) || store_app_ok(value)
}

/// A problem found: the field and what is wrong with it.
pub struct Problem {
    pub field: Seq<char>,
    pub reason: Seq<char>,
}

pub open spec fn problem(field: Seq<char>, reason: Seq<char>) -> Option<Problem> {
    Some(Problem { field, reason })
}

pub open spec fn indexed(prefix: Seq<char>, index: int, suffix: Seq<char>) -> Seq<char> {
    prefix + decimal(index as nat) + suffix
}

/// The first problem of the trigger at `i`, checked in field order; `triggers` before `i`
/// have none.
pub open spec fn trigger_problem(triggers: Seq<TriggerView>, i: int) -> Option<Problem> {
    let t = triggers[i];
    if !executable_name_ok(t.process_name) {
        problem(indexed("triggers."@, i, ".processName"@), "must be an executable name like App.exe"@)
    } else if !name_ok(t.label) {
        problem(indexed("triggers."@, i, ".label"@), "must have between 1 and 80 characters"@)
    } else if exists|j: int| 0 <= j < i && normalized(#[trigger] triggers[j].process_name) == normalized(t.process_name) {
        problem(indexed("triggers."@, i, ".processName"@), "is duplicated"@)
    } else if t.launch_target is Some && !launch_target_ok(t.launch_target->0) {
        problem(
            indexed("triggers."@, i, ".launchTarget"@),
            "must be an absolute .exe path, a Steam launch link or shell:AppsFolder\\<app id>"@,
        )
    } else {
        None
    }
}

/// The first problem among the first `n` triggers.
pub open spec fn triggers_problem_upto(triggers: Seq<TriggerView>, n: int) -> Option<Problem>
    decreases n,
{
    if n <= 0 {
        None
    } else {
        match triggers_problem_upto(triggers, n - 1) {
            Some(p) => Some(p),
            None => trigger_problem(triggers, n - 1),
        }
    }
}

pub open spec fn triggers_problem(triggers: Seq<TriggerView>) -> Option<Problem> {
    if triggers.len() == 0 || triggers.len() > MAX_TRIGGERS {
        problem("triggers"@, "must have between 1 and 5 entries"@)
    } else {
        triggers_problem_upto(triggers, triggers.len() as int)
    }
}

/// The first problem of an item's own fields.
pub open spec fn item_fields_problem(index: int, item: LaunchItemView) -> Option<Problem> {
    if !parses_as_uuid(item.id()) {
        problem(indexed("items."@, index, ".id"@), "is not a valid UUID"@)
    } else if !name_ok(item.name()) {
        problem(indexed("items."@, index, ".name"@), "must have between 1 and 80 characters"@)
    } else if item.delay_ms() > MAX_DELAY_MS {
        problem(indexed("items."@, index, ".delayMs"@), "exceeds the maximum delay"@)
    } else {
        match item {
            LaunchItemView::App(app) => if trimmed(app.exe_path).len() == 0 {
                problem(indexed("items."@, index, ".exePath"@), "is required"@)
            } else if app.launch_before_simulator && app.wait_for_sim_connect {
                problem(
                    indexed("items."@, index, ".launchBeforeSimulator"@),
                    "cannot be combined with waitForSimConnect"@,
                )
            } else if !executable_name_ok(app.process_name) {
                problem(
                    indexed("items."@, index, ".processName"@),
                    "must be an executable name like App.exe"@,
                )
            } else {
                None
            },
            LaunchItemView::Url(url) => if !item_url_ok(url.url) {
                problem(
                    indexed("items."@, index, ".url"@),
                    "must be an http(s) URL or a Steam launch link"@,
                )
            } else {
                None
            },
        }
    }
}

/// An item may only name triggers of its profile, each once.
pub open spec fn only_for_problem(index: int, item: LaunchItemView, triggers: Seq<TriggerView>) -> Option<
    Problem,
> {
    let names = item.only_for_triggers();
    let field = indexed("items."@, index, ".onlyForTriggers"@);
    match first_only_for_issue(names, triggers, names.len() as int) {
        Some(duplicated) => if duplicated {
            problem(field, "is duplicated"@)
        } else {
            problem(field, "must list triggers of the profile"@)
        },
        None => None,
    }
}

/// Among the first `n` names, the first issue: `Some(false)` for a name that is not a
/// trigger of the profile, `Some(true)` for a repeated one.
pub open spec fn first_only_for_issue(names: Seq<Seq<char>>, triggers: Seq<TriggerView>, n: int) -> Option<
    bool,
>
    decreases n,
{
    if n <= 0 {
        None
    } else {
        match first_only_for_issue(names, triggers, n - 1) {
            Some(issue) => Some(issue),
            None => {
                let name = normalized(names[n - 1]);
                if !exists|t: int| 0 <= t < triggers.len() && normalized(#[trigger] triggers[t].process_name) == name {
                    Some(false)
                } else if exists|j: int| 0 <= j < n - 1 && normalized(#[trigger] names[j]) == name {
                    Some(true)
                } else {
                    None
                }
            },
        }
    }
}

pub open spec fn item_problem(items: Seq<LaunchItemView>, i: int, triggers: Seq<TriggerView>) -> Option<
    Problem,
> {
    if exists|j: int| 0 <= j < i && (#[trigger] items[j]).id() == items[i].id() {
        problem(indexed("items."@, i, ".id"@), "is duplicated"@)
    } else {
        match item_fields_problem(i, items[i]) {
            Some(p) => Some(p),
            None => only_for_problem(i, items[i], triggers),
        }
    }
}

pub open spec fn items_problem_upto(items: Seq<LaunchItemView>, n: int, triggers: Seq<TriggerView>) -> Option<
    Problem,
>
    decreases n,
{
    if n <= 0 {
        None
    } else {
        match items_problem_upto(items, n - 1, triggers) {
            Some(p) => Some(p),
            None => item_problem(items, n - 1, triggers),
        }
    }
}

/// The first problem of a profile, in the order the fields are checked.
pub open spec fn profile_problem(profile: ProfileView) -> Option<Problem> {
    if !parses_as_uuid(profile.id) {
        problem("id"@, "is not a valid UUID"@)
    } else if !name_ok(profile.name) {
        problem("name"@, "must have between 1 and 80 characters"@)
    } else {
        match triggers_problem(profile.triggers) {
            Some(p) => Some(p),
            None => items_problem_upto(profile.items, profile.items.len() as int, profile.triggers),
        }
    }
}

/// The settings' first problem.
pub open spec fn settings_problem(settings: Settings) -> Option<Problem> {
    if !(MIN_GRACEFUL_TIMEOUT_MS <= settings.graceful_timeout_ms <= MAX_GRACEFUL_TIMEOUT_MS) {
        problem("gracefulTimeoutMs"@, "is out of range"@)
    } else if settings.close_delay_ms > MAX_CLOSE_DELAY_MS {
        problem("closeDelayMs"@, "is out of range"@)
    } else {
        None
    }
}

/// A check answers `Ok` when nothing was found, and otherwise the validation error that
/// names the problem.
pub open spec fn reports(result: Result<(), AppError>, found: Option<Problem>) -> bool {
    match result {
        Ok(()) => found is None,
        Err(error) => found matches Some(p) && is_validation_error(error, p),
    }
}

/// Once a problem is found among the first `k` triggers, it stays the first one.
proof fn lemma_trigger_problem_stays(triggers: Seq<TriggerView>, k: int, m: int)
    requires
        0 <= k <= m,
        triggers_problem_upto(triggers, k) is Some,
    ensures
        triggers_problem_upto(triggers, m) == triggers_problem_upto(triggers, k),
    decreases m - k,
{
    if m > k {
        lemma_trigger_problem_stays(triggers, k, m - 1);
    }
}

/// Once a problem is found among the first `k` items, it stays the first one.
proof fn lemma_item_problem_stays(
    items: Seq<LaunchItemView>,
    triggers: Seq<TriggerView>,
    k: int,
    m: int,
)
    requires
        0 <= k <= m,
        items_problem_upto(items, k, triggers) is Some,
    ensures
        items_problem_upto(items, m, triggers) == items_problem_upto(items, k, triggers),
    decreases m - k,
{
    if m > k {
        lemma_item_problem_stays(items, triggers, k, m - 1);
    }
}

/// Once an issue is found among the first `k` names, it stays the first one.
proof fn lemma_only_for_issue_stays(
    names: Seq<Seq<char>>,
    triggers: Seq<TriggerView>,
    k: int,
    m: int,
)
    requires
        0 <= k <= m,
        first_only_for_issue(names, triggers, k) is Some,
    ensures
        first_only_for_issue(names, triggers, m) == first_only_for_issue(names, triggers, k),
    decreases m - k,
{
    if m > k {
        lemma_only_for_issue_stays(names, triggers, k, m - 1);
    }
}

pub open spec fn is_validation_error(error: AppError, p: Problem) -> bool {
    error matches AppError::Validation(message) && message@ == p.field + " "@ + p.reason
}

fn invalid(field: &str, reason: &str) -> (error: AppError)
    ensures
        error matches AppError::Validation(message) && message@ == field@ + " "@ + reason@,
{
    AppError::Validation(String::from_str(field).concat(" ").concat(reason))
}

fn field_at(prefix: &str, index: usize, suffix: &str) -> (field: String)
    ensures
        field@ == indexed(prefix@, index as int, suffix@),
{
    let number = decimal_text(index as u64);
    String::from_str(prefix).concat(number.as_str()).concat(suffix)
}

fn require_uuid(field: &str, value: &str) -> (result: Result<(), AppError>)
    ensures
        match result {
            Ok(()) => parses_as_uuid(value@),
            Err(error) => !parses_as_uuid(value@) && is_validation_error(
                error,
                Problem { field: field@, reason: "is not a valid UUID"@ },
            ),
        },
{
    if uuid_parses(value) {
        Ok(())
    } else {
        Err(invalid(field, "is not a valid UUID"))
    }
}

fn require_name(field: &str, value: &str) -> (result: Result<(), AppError>)
    ensures
        match result {
            Ok(()) => name_ok(value@),
            Err(error) => !name_ok(value@) && is_validation_error(
                error,
                Problem { field: field@, reason: "must have between 1 and 80 characters"@ },
            ),
        },
{
    let trimmed = trim(value);
    let count = trimmed.unicode_len();
    if count == 0 || count > MAX_NAME_LENGTH {
        return Err(invalid(field, "must have between 1 and 80 characters"));
    }
    Ok(())
}

pub fn is_executable_name(value: &str) -> (ok: bool)
    ensures
        ok == executable_name_ok(value@),
{
    let chars = chars_of(value);
    let mut i: usize = 0;
    while i < chars.len()
        invariant
            chars@ == value@,
            i <= chars@.len(),
            forall|j: int| 0 <= j < i ==> !forbidden_char(#[trigger] value@[j]),
        decreases chars@.len() - i,
    {
        if is_forbidden_char(chars[i]) {
            return false;
        }
        i = i + 1;
    }
    let lower = chars_of(to_lowercase(value).as_str());
    let exe = chars_of(".exe");
    let bytes = value.as_bytes();
    seq_ends_with(lower.as_slice(), exe.as_slice()) && bytes.len() > 4
}

fn require_executable_name(field: &str, value: &str) -> (result: Result<(), AppError>)
    ensures
        match result {
            Ok(()) => executable_name_ok(value@),
            Err(error) => !executable_name_ok(value@) && is_validation_error(
                error,
                Problem { field: field@, reason: "must be an executable name like App.exe"@ },
            ),
        },
{
    if is_executable_name(value) {
        Ok(())
    } else {
        Err(invalid(field, "must be an executable name like App.exe"))
    }
}

/// Profiles are shared between pilots, so only schemes that cannot run arbitrary protocol
/// handlers are accepted: web addresses and Steam launch links.
pub fn is_supported_item_url(value: &str) -> (ok: bool)
    ensures
        ok == item_url_ok(value@),
{
    let web = match url_scheme(value) {
        Some(scheme) => crate::text::same_text(scheme.as_str(), "http") || crate::text::same_text(
            scheme.as_str(),
            "https",
        ),
        None => false,
    };
    web || is_steam_launch_link(value)
}

fn digits_only(text: &[char], from: usize) -> (ok: bool)
    requires
        from <= text@.len(),
    ensures
        ok == all_digits(text@.skip(from as int)),
{
    let mut i = from;
    while i < text.len()
        invariant
            from <= i <= text@.len(),
            forall|j: int| from <= j < i ==> is_ascii_digit(#[trigger] text@[j]),
        decreases text@.len() - i,
    {
        if !('0' <= text[i] && text[i] <= '9') {
            assert(text@.skip(from as int)[i - from] == text@[i as int]);
            return false;
        }
        i = i + 1;
    }
    assert forall|j: int| 0 <= j < text@.skip(from as int).len() implies is_ascii_digit(
        #[trigger] text@.skip(from as int)[j],
    ) by {
        assert(text@.skip(from as int)[j] == text@[from + j]);
    }
    true
}

/// `steam://rungameid/<digits>` and `steam://run/<digits>`.
pub fn is_steam_launch_link(value: &str) -> (ok: bool)
    ensures
        ok == steam_link_ok(value@),
{
    let chars = chars_of(value);
    let scheme = chars_of("steam://");
    if !seq_starts_with(chars.as_slice(), scheme.as_slice()) {
        return false;
    }
    let ghost rest = value@.skip(scheme@.len() as int);
    let mut tail: Vec<char> = Vec::new();
    let mut i = scheme.len();
    while i < chars.len()
        invariant
            chars@ == value@,
            scheme@.len() <= i <= chars@.len(),
            rest == value@.skip(scheme@.len() as int),
            tail@ == chars@.subrange(scheme@.len() as int, i as int),
        decreases chars@.len() - i,
    {
        tail.push(chars[i]);
        i = i + 1;
        assert(tail@ =~= chars@.subrange(scheme@.len() as int, i as int));
    }
    assert(tail@ =~= rest);
    let long = chars_of("rungameid/");
    let short = chars_of("run/");
    let long_ok = seq_starts_with(tail.as_slice(), long.as_slice()) && tail.len() > long.len()
        && digits_only(tail.as_slice(), long.len());
    let short_ok = seq_starts_with(tail.as_slice(), short.as_slice()) && tail.len() > short.len()
        && digits_only(tail.as_slice(), short.len());
    long_ok || short_ok
}

fn is_store_app(value: &str) -> (ok: bool)
    ensures
        ok == store_app_ok(value@),
{
    let chars = chars_of(value);
    let prefix = chars_of("shell:AppsFolder\\");
    if !seq_starts_with(chars.as_slice(), prefix.as_slice()) {
        return false;
    }
    let ghost app_id = value@.skip(prefix@.len() as int);
    let start = prefix.len();
    let mut has_bang = false;
    let mut i = start;
    while i < chars.len()
        invariant
            chars@ == value@,
            prefix@ == "shell:AppsFolder\\"@,
            has_prefix(value@, prefix@),
            start == prefix@.len(),
            start <= i <= chars@.len(),
            app_id == value@.skip(start as int),
            has_bang == exists|j: int| start <= j < i && chars@[j] == '!',
            forall|j: int|
                start <= j < i ==> !(is_white_space(#[trigger] chars@[j]) || forbidden_char(chars@[j])),
        decreases chars@.len() - i,
    {
        let c = chars[i];
        if crate::text::char_is_whitespace(c) || is_forbidden_char(c) {
            assert(app_id[i - start] == c);
            assert(is_white_space(app_id[i - start]) || forbidden_char(app_id[i - start]));
            return false;
        }
        if c == '!' {
            has_bang = true;
        }
        i = i + 1;
    }
    assert forall|j: int| 0 <= j < app_id.len() implies app_id[j] == chars@[start + j] by {}
    if has_bang {
        proof {
            let j = choose|j: int| start <= j < i && chars@[j] == '!';
            assert(app_id[j - start] == '!');
        }
    } else {
        assert forall|k: int| 0 <= k < app_id.len() implies app_id[k] != '!' by {
            assert(app_id[k] == chars@[start + k]);
        }
    }
    has_bang
}

/// Checked by hand too, so Windows paths validate the same way while developing elsewhere.
fn is_executable_path(value: &str) -> (ok: bool)
    ensures
        ok == executable_path_ok(value@),
{
    let bytes = value.as_bytes();
    let has_drive = bytes.len() > 3 && (('a' as u8 <= bytes[0] && bytes[0] <= 'z' as u8) || (
    'A' as u8 <= bytes[0] && bytes[0] <= 'Z' as u8)) && bytes[1] == 58u8 && bytes[2] == 92u8;
    let lower = chars_of(to_lowercase(value).as_str());
    let exe = chars_of(".exe");
    (has_drive || is_absolute_path(value)) && seq_ends_with(lower.as_slice(), exe.as_slice())
}

fn require_launch_target(field: &str, value: &str) -> (result: Result<(), AppError>)
    ensures
        match result {
            Ok(()) => launch_target_ok(value@),
            Err(error) => !launch_target_ok(value@) && is_validation_error(
                error,
                Problem {
                    field: field@,
                    reason: "must be an absolute .exe path, a Steam launch link or shell:AppsFolder\\<app id>"@,
                },
            ),
        },
{
    if is_executable_path(value) || is_steam_launch_link(value) || is_store_app(value) {
        return Ok(());
    }
    Err(
        invalid(
            field,
            "must be an absolute .exe path, a Steam launch link or shell:AppsFolder\\<app id>",
        ),
    )
}

/// Whether a trigger before `index` has the same normalized process name.
fn trigger_repeats(triggers: &[Trigger], index: usize) -> (repeats: bool)
    requires
        index < triggers@.len(),
    ensures
        repeats == exists|j: int|
            0 <= j < index && normalized(#[trigger] triggers.deep_view()[j].process_name)
                == normalized(triggers.deep_view()[index as int].process_name),
{
    let ghost ts = triggers.deep_view();
    let mut j: usize = 0;
    while j < index
        invariant
            ts == triggers.deep_view(),
            j <= index < triggers@.len(),
            forall|k: int|
                0 <= k < j ==> normalized(#[trigger] ts[k].process_name) != normalized(
                    ts[index as int].process_name,
                ),
        decreases index - j,
    {
        assert(ts[j as int] == triggers@[j as int]@ && ts[index as int] == triggers@[index as int]@);
        if same_process_name(triggers[j].process_name.as_str(), triggers[index].process_name.as_str()) {
            assert(normalized(ts[j as int].process_name) == normalized(ts[index as int].process_name));
            return true;
        }
        j = j + 1;
    }
    false
}

fn validate_triggers(triggers: &[Trigger]) -> (result: Result<(), AppError>)
    ensures
        reports(result, triggers_problem(triggers.deep_view())),
{
    if triggers.len() == 0 || triggers.len() > MAX_TRIGGERS {
        return Err(invalid("triggers", "must have between 1 and 5 entries"));
    }
    let ghost ts = triggers.deep_view();
    let mut index: usize = 0;
    while index < triggers.len()
        invariant
            ts == triggers.deep_view(),
            1 <= ts.len() <= MAX_TRIGGERS,
            index <= ts.len(),
            triggers_problem_upto(ts, index as int) is None,
        decreases ts.len() - index,
    {
        let trigger = &triggers[index];
        assert(ts[index as int] == trigger@);
        let found: Result<(), AppError> = {
            let name_field = field_at("triggers.", index, ".processName");
            match require_executable_name(name_field.as_str(), trigger.process_name.as_str()) {
                Err(error) => Err(error),
                Ok(()) => match require_name(
                    field_at("triggers.", index, ".label").as_str(),
                    trigger.label.as_str(),
                ) {
                    Err(error) => Err(error),
                    Ok(()) => if trigger_repeats(triggers, index) {
                        Err(invalid(name_field.as_str(), "is duplicated"))
                    } else {
                        match &trigger.launch_target {
                            Some(target) => require_launch_target(
                                field_at("triggers.", index, ".launchTarget").as_str(),
                                target.as_str(),
                            ),
                            None => Ok(()),
                        }
                    },
                },
            }
        };
        assert(reports(found, trigger_problem(ts, index as int)));
        if found.is_err() {
            proof {
                lemma_trigger_problem_stays(ts, index + 1, ts.len() as int);
            }
            return found;
        }
        index = index + 1;
    }
    Ok(())
}

/// Whether a name before `k` has the same normalized process name as the one at `k`.
fn name_repeats(names: &[String], k: usize) -> (repeats: bool)
    requires
        k < names@.len(),
    ensures
        repeats == exists|j: int|
            0 <= j < k && normalized(#[trigger] names.deep_view()[j]) == normalized(
                names.deep_view()[k as int],
            ),
{
    let mut j: usize = 0;
    while j < k
        invariant
            j <= k < names@.len(),
            forall|i: int|
                0 <= i < j ==> normalized(#[trigger] names.deep_view()[i]) != normalized(
                    names.deep_view()[k as int],
                ),
        decreases k - j,
    {
        assert(names.deep_view()[j as int] == names@[j as int]@);
        assert(names.deep_view()[k as int] == names@[k as int]@);
        if same_process_name(names[j].as_str(), names[k].as_str()) {
            return true;
        }
        j = j + 1;
    }
    false
}

/// Whether one of the triggers has the same normalized process name as `name`.
fn names_a_trigger(triggers: &[Trigger], name: &str) -> (found: bool)
    ensures
        found == exists|t: int|
            0 <= t < triggers@.len() && normalized(#[trigger] triggers.deep_view()[t].process_name)
                == normalized(name@),
{
    let mut t: usize = 0;
    while t < triggers.len()
        invariant
            t <= triggers@.len(),
            forall|i: int|
                0 <= i < t ==> normalized(#[trigger] triggers.deep_view()[i].process_name)
                    != normalized(name@),
        decreases triggers@.len() - t,
    {
        assert(triggers.deep_view()[t as int] == triggers@[t as int]@);
        if same_process_name(triggers[t].process_name.as_str(), name) {
            assert(normalized(triggers.deep_view()[t as int].process_name) == normalized(name@));
            return true;
        }
        t = t + 1;
    }
    false
}

fn validate_only_for_triggers(index: usize, item: &LaunchItem, triggers: &[Trigger]) -> (result:
    Result<(), AppError>)
    ensures
        reports(result, only_for_problem(index as int, item@, triggers.deep_view())),
{
    let field = field_at("items.", index, ".onlyForTriggers");
    let names = item.only_for_triggers();
    let ghost ns = item@.only_for_triggers();
    let ghost ts = triggers.deep_view();
    let mut k: usize = 0;
    while k < names.len()
        invariant
            names.deep_view() == ns,
            ns == item@.only_for_triggers(),
            ts == triggers.deep_view(),
            field@ == indexed("items."@, index as int, ".onlyForTriggers"@),
            k <= ns.len(),
            first_only_for_issue(ns, ts, k as int) is None,
        decreases ns.len() - k,
    {
        assert(names.deep_view()[k as int] == names@[k as int]@);
        if !names_a_trigger(triggers, names[k].as_str()) {
            proof {
                lemma_only_for_issue_stays(ns, ts, k + 1, ns.len() as int);
            }
            return Err(invalid(field.as_str(), "must list triggers of the profile"));
        }
        if name_repeats(names, k) {
            proof {
                lemma_only_for_issue_stays(ns, ts, k + 1, ns.len() as int);
            }
            return Err(invalid(field.as_str(), "is duplicated"));
        }
        k = k + 1;
    }
    Ok(())
}

fn validate_item(index: usize, item: &LaunchItem) -> (result: Result<(), AppError>)
    ensures
        reports(result, item_fields_problem(index as int, item@)),
{
    if let Err(error) = require_uuid(field_at("items.", index, ".id").as_str(), item.id()) {
        return Err(error);
    }
    if let Err(error) = require_name(field_at("items.", index, ".name").as_str(), item.name()) {
        return Err(error);
    }
    if item.delay_ms() > MAX_DELAY_MS {
        return Err(invalid(field_at("items.", index, ".delayMs").as_str(), "exceeds the maximum delay"));
    }
    match item {
        LaunchItem::App(app) => {
            if trim(app.exe_path.as_str()).unicode_len() == 0 {
                return Err(invalid(field_at("items.", index, ".exePath").as_str(), "is required"));
            }
            if app.launch_before_simulator && app.wait_for_sim_connect {
                return Err(
                    invalid(
                        field_at("items.", index, ".launchBeforeSimulator").as_str(),
                        "cannot be combined with waitForSimConnect",
                    ),
                );
            }
            require_executable_name(
                field_at("items.", index, ".processName").as_str(),
                app.process_name.as_str(),
            )
        },
        LaunchItem::Url(url) => {
            if is_supported_item_url(url.url.as_str()) {
                Ok(())
            } else {
                Err(
                    invalid(
                        field_at("items.", index, ".url").as_str(),
                        "must be an http(s) URL or a Steam launch link",
                    ),
                )
            }
        },
    }
}

/// Whether an item before `index` has the same id.
fn id_repeats(items: &[LaunchItem], index: usize) -> (repeats: bool)
    requires
        index < items@.len(),
    ensures
        repeats == exists|j: int|
            0 <= j < index && (#[trigger] items.deep_view()[j]).id()
                == items.deep_view()[index as int].id(),
{
    let mut j: usize = 0;
    while j < index
        invariant
            j <= index < items@.len(),
            forall|k: int|
                0 <= k < j ==> (#[trigger] items.deep_view()[k]).id()
                    != items.deep_view()[index as int].id(),
        decreases index - j,
    {
        assert(items.deep_view()[j as int] == items@[j as int]@);
        assert(items.deep_view()[index as int] == items@[index as int]@);
        if crate::text::same_text(items[j].id(), items[index].id()) {
            return true;
        }
        j = j + 1;
    }
    false
}

/// Checks a profile before it is saved: the first problem found, in the order of the
/// fields, is answered as a validation error naming the field.
pub fn validate_profile(profile: &Profile) -> (result: Result<(), AppError>)
    ensures
        reports(result, profile_problem(profile@)),
{
    if let Err(error) = require_uuid("id", profile.id.as_str()) {
        return Err(error);
    }
    if let Err(error) = require_name("name", profile.name.as_str()) {
        return Err(error);
    }
    let triggers = profile.triggers.as_slice();
    assert(triggers.deep_view() =~= profile@.triggers);
    if let Err(error) = validate_triggers(triggers) {
        return Err(error);
    }
    let items = profile.items.as_slice();
    assert(items.deep_view() =~= profile@.items);
    let ghost its = profile@.items;
    let ghost ts = profile@.triggers;
    let mut index: usize = 0;
    while index < items.len()
        invariant
            items.deep_view() == its,
            triggers.deep_view() == ts,
            its == profile@.items,
            ts == profile@.triggers,
            parses_as_uuid(profile@.id),
            name_ok(profile@.name),
            triggers_problem(ts) is None,
            index <= its.len(),
            items_problem_upto(its, index as int, ts) is None,
        decreases its.len() - index,
    {
        let item = &items[index];
        assert(its[index as int] == item@);
        let found: Result<(), AppError> = if id_repeats(items, index) {
            Err(invalid(field_at("items.", index, ".id").as_str(), "is duplicated"))
        } else {
            match validate_item(index, item) {
                Err(error) => Err(error),
                Ok(()) => validate_only_for_triggers(index, item, triggers),
            }
        };
        assert(reports(found, item_problem(its, index as int, ts)));
        if found.is_err() {
            proof {
                lemma_item_problem_stays(its, ts, index + 1, its.len() as int);
            }
            return found;
        }
        index = index + 1;
    }
    Ok(())
}

/// Checks the settings before they are saved.
pub fn validate_settings(settings: &Settings) -> (result: Result<(), AppError>)
    ensures
        reports(result, settings_problem(*settings)),
{
    if !(MIN_GRACEFUL_TIMEOUT_MS <= settings.graceful_timeout_ms
        && settings.graceful_timeout_ms <= MAX_GRACEFUL_TIMEOUT_MS) {
        return Err(invalid("gracefulTimeoutMs", "is out of range"));
    }
    if settings.close_delay_ms > MAX_CLOSE_DELAY_MS {
        return Err(invalid("closeDelayMs", "is out of range"));
    }
    Ok(())
}

/// An item may wait at most a minute: one whose delay is longer is refused at its `delayMs`
/// field once its id and name are valid, and a delay within the minute is never refused.
pub proof fn lemma_item_delay_limit(index: int, item: LaunchItemView)
    ensures
        parses_as_uuid(item.id()) && name_ok(item.name()) && item.delay_ms() > 60_000 ==> item_fields_problem(
            index,
            item,
        ) == Some(Problem { field: indexed("items."@, index, ".delayMs"@), reason: "exceeds the maximum delay"@ }),
        item.delay_ms() <= 60_000 ==> item_fields_problem(index, item) != Some(
            Problem { field: indexed("items."@, index, ".delayMs"@), reason: "exceeds the maximum delay"@ },
        ),
{
    reveal_strlit("exceeds the maximum delay");
    reveal_strlit("is not a valid UUID");
    reveal_strlit("must have between 1 and 80 characters");
    reveal_strlit("is required");
    reveal_strlit("cannot be combined with waitForSimConnect");
    reveal_strlit("must be an executable name like App.exe");
    reveal_strlit("must be an http(s) URL or a Steam launch link");
    assert("exceeds the maximum delay"@.len() == 25);
    assert("is not a valid UUID"@.len() == 19);
    assert("must have between 1 and 80 characters"@.len() == 37);
    assert("is required"@.len() == 11);
    assert("cannot be combined with waitForSimConnect"@.len() == 41);
    assert("must be an executable name like App.exe"@.len() == 39);
    assert("must be an http(s) URL or a Steam launch link"@.len() == 45);
}

/// A profile whose fields before an item are valid is refused at that item's `delayMs` field
/// when the item waits longer than a minute.
pub proof fn lemma_profile_with_a_long_delay_is_rejected(profile: ProfileView, k: int)
    requires
        0 <= k < profile.items.len(),
        parses_as_uuid(profile.id),
        name_ok(profile.name),
        triggers_problem(profile.triggers) is None,
        items_problem_upto(profile.items, k, profile.triggers) is None,
        forall|j: int| 0 <= j < k ==> (#[trigger] profile.items[j]).id() != profile.items[k].id(),
        parses_as_uuid(profile.items[k].id()),
        name_ok(profile.items[k].name()),
        profile.items[k].delay_ms() > 60_000,
    ensures
        profile_problem(profile) == Some(
            Problem { field: indexed("items."@, k, ".delayMs"@), reason: "exceeds the maximum delay"@ },
        ),
{
    lemma_item_delay_limit(k, profile.items[k]);
    assert(item_problem(profile.items, k, profile.triggers) == item_fields_problem(k, profile.items[k]));
    lemma_item_problem_stays(profile.items, profile.triggers, k + 1, profile.items.len() as int);
}

} // verus!
